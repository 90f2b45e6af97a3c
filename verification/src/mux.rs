//! The state of one multiplexed WebSocket connection: which sessions are authenticated, which
//! streams are open, and what each received frame asks to be done.
//!
//! The state machine does no I/O. A received frame gives a [`Step`] for the caller to carry
//! out; where the server has to judge an authentication, the caller hands the verdict back.

use std::collections::HashSet;

use vstd::prelude::*;
use vstd::string::*;
use vstd::utf8::*;

use crate::address;
use crate::address::{Address, AddressView};
use crate::error::{Error, ErrorView, Result};
use crate::flow;
use crate::flow::{SendInput, SenderView};
use crate::frame;
use crate::frame::{
    Frame, FrameView, CONTROL_STREAM, FRAME_AUTH_REQUEST, FRAME_AUTH_RESPONSE, FRAME_DATAGRAM,
    FRAME_OPEN_STREAM, FRAME_OPEN_STREAM_ACK, FRAME_PING, FRAME_PONG, FRAME_STREAM_CLOSE,
    FRAME_STREAM_CREDIT, FRAME_STREAM_DATA,
};
use crate::message;
use crate::message::{
    AuthRequest, AuthRequestView, AuthResponse, AuthResponseView, Datagram, DatagramView,
    OpenStream, OpenStreamAck, OpenStreamAckView, ERR_BAD_CREDENTIALS, ERR_PROTOCOL, STATUS_ERR,
    STATUS_OK,
};
use crate::outside;
use crate::varint;
use crate::wire;

verus! {

broadcast use vstd::std_specs::hash::group_hash_axioms;

/// The state of a multiplexed connection.
pub struct Mux {
    server: bool,
    awaiting_auth: bool,
    handshake_open: bool,
    sessions: Option<HashSet<u64>>,
    pending_auth: HashSet<u64>,
    pending: HashSet<u64>,
    streams: HashSet<u64>,
}

/// The state as sets of stream ids.
#[verifier::ext_equal]
pub struct MuxView {
    /// Whether this end judges authentications.
    pub server: bool,
    /// Whether this end still waits for the answer to its first authentication.
    pub awaiting_auth: bool,
    /// Whether nobody has been authenticated on the control stream yet.
    pub handshake_open: bool,
    /// The authenticated sessions, where each session has to authenticate for itself.
    pub sessions: Option<Set<u64>>,
    /// Sessions that wait for the answer to their authentication.
    pub pending_auth: Set<u64>,
    /// Streams asked for and not answered yet.
    pub pending: Set<u64>,
    /// Streams that carry data.
    pub streams: Set<u64>,
}

impl View for Mux {
    type V = MuxView;

    closed spec fn view(&self) -> MuxView {
        MuxView {
            server: self.server,
            awaiting_auth: self.awaiting_auth,
            handshake_open: self.handshake_open,
            sessions: match self.sessions {
                Some(s) => Some(s@),
                None => None,
            },
            pending_auth: self.pending_auth@,
            pending: self.pending@,
            streams: self.streams@,
        }
    }
}

/// What a received frame asks the caller to do.
#[derive(Debug)]
pub enum Step {
    /// Nothing.
    Idle,
    /// Send a frame.
    Send(Frame),
    /// Send a frame and close the connection.
    SendAndClose(Frame),
    /// Judge an authentication and hand the verdict to `complete_auth`.
    Validate { stream_id: u64, request: AuthRequest },
    /// The first authentication was answered.
    Authenticated(Result<AuthResponse>),
    /// The authentication of a session was answered.
    SessionAuthenticated { stream_id: u64, reply: Result<AuthResponse> },
    /// The peer asks for a stream.
    Incoming { stream_id: u64, address: Address },
    /// A stream that was asked for now carries data.
    Opened { stream_id: u64 },
    /// A stream that was asked for was refused.
    Refused { stream_id: u64, error: Error },
    /// Data came in on a stream.
    Deliver { stream_id: u64, body: Vec<u8> },
    /// The peer has read so many bytes of a stream.
    Grant { stream_id: u64, amount: u64 },
    /// The peer sends no more data on a stream.
    Closed { stream_id: u64 },
    /// A packet came in.
    Packet(Datagram),
}

/// A `Step` over views.
#[verifier::ext_equal]
pub enum StepView {
    Idle,
    Send(FrameView),
    SendAndClose(FrameView),
    Validate { stream_id: u64, request: AuthRequestView },
    Authenticated(core::result::Result<AuthResponseView, ErrorView>),
    SessionAuthenticated {
        stream_id: u64,
        reply: core::result::Result<AuthResponseView, ErrorView>,
    },
    Incoming { stream_id: u64, address: AddressView },
    Opened { stream_id: u64 },
    Refused { stream_id: u64, error: ErrorView },
    Deliver { stream_id: u64, body: Seq<u8> },
    Grant { stream_id: u64, amount: u64 },
    Closed { stream_id: u64 },
    Packet(DatagramView),
}

/// The view of an answer or of the failure to read it.
pub open spec fn reply_view(r: Result<AuthResponse>) -> core::result::Result<
    AuthResponseView,
    ErrorView,
> {
    match r {
        Ok(m) => Ok(m@),
        Err(e) => Err(e@),
    }
}

impl View for Step {
    type V = StepView;

    open spec fn view(&self) -> StepView {
        match self {
            Step::Idle => StepView::Idle,
            Step::Send(f) => StepView::Send(f@),
            Step::SendAndClose(f) => StepView::SendAndClose(f@),
            Step::Validate { stream_id, request } => StepView::Validate {
                stream_id: *stream_id,
                request: request@,
            },
            Step::Authenticated(r) => StepView::Authenticated(reply_view(*r)),
            Step::SessionAuthenticated { stream_id, reply } => StepView::SessionAuthenticated {
                stream_id: *stream_id,
                reply: reply_view(*reply),
            },
            Step::Incoming { stream_id, address } => StepView::Incoming {
                stream_id: *stream_id,
                address: address@,
            },
            Step::Opened { stream_id } => StepView::Opened { stream_id: *stream_id },
            Step::Refused { stream_id, error } => StepView::Refused {
                stream_id: *stream_id,
                error: error@,
            },
            Step::Deliver { stream_id, body } => StepView::Deliver {
                stream_id: *stream_id,
                body: body@,
            },
            Step::Grant { stream_id, amount } => StepView::Grant {
                stream_id: *stream_id,
                amount: *amount,
            },
            Step::Closed { stream_id } => StepView::Closed { stream_id: *stream_id },
            Step::Packet(d) => StepView::Packet(d@),
        }
    }
}

/// The frame that carries an `AuthResponse`.
pub open spec fn auth_response_frame(stream_id: u64, m: AuthResponseView) -> FrameView {
    FrameView {
        stream_id,
        frame_type: FRAME_AUTH_RESPONSE,
        body: message::auth_response_bytes(m),
    }
}

/// The frame that carries an `AuthRequest`.
pub open spec fn auth_request_frame(stream_id: u64, m: AuthRequestView) -> FrameView {
    FrameView {
        stream_id,
        frame_type: FRAME_AUTH_REQUEST,
        body: message::auth_request_bytes(m),
    }
}

/// The frame that carries an `OpenStreamAck`.
pub open spec fn ack_frame(stream_id: u64, m: OpenStreamAckView) -> FrameView {
    FrameView {
        stream_id,
        frame_type: FRAME_OPEN_STREAM_ACK,
        body: message::open_stream_ack_bytes(m),
    }
}

/// The frame that asks for a stream.
pub open spec fn open_frame(stream_id: u64, a: AddressView) -> FrameView {
    FrameView { stream_id, frame_type: FRAME_OPEN_STREAM, body: address::address_bytes(a) }
}

/// The frame that carries a packet.
pub open spec fn datagram_frame_view(d: DatagramView) -> FrameView {
    FrameView {
        stream_id: CONTROL_STREAM,
        frame_type: FRAME_DATAGRAM,
        body: message::datagram_bytes(d),
    }
}

/// The answer to a request for a stream in a session that is not authenticated.
pub open spec fn unauthenticated_ack() -> OpenStreamAckView {
    OpenStreamAckView {
        status: STATUS_ERR,
        error_code: ERR_PROTOCOL,
        message: encode_utf8("session not authenticated"@),
    }
}

impl MuxView {
    /// Whether streams and packets of this id are turned away: sessions authenticate for
    /// themselves, and this one has not.
    pub open spec fn gated(self, id: u64) -> bool {
        id != CONTROL_STREAM && (self.sessions matches Some(s) && !s.contains(id))
    }

    /// What the frame `f` asks to be done in this state.
    pub open spec fn reaction(self, f: FrameView) -> StepView {
        let id = f.stream_id;
        if f.frame_type == FRAME_AUTH_REQUEST {
            if !self.server {
                StepView::Idle
            } else {
                match message::parse_auth_request(f.body) {
                    Some((request, _)) => StepView::Validate { stream_id: id, request },
                    None => {
                        let reply = auth_response_frame(
                            id,
                            AuthResponseView::rejected(ERR_BAD_CREDENTIALS, "bad request"@),
                        );
                        if id == CONTROL_STREAM {
                            StepView::SendAndClose(reply)
                        } else {
                            StepView::Send(reply)
                        }
                    },
                }
            }
        } else if f.frame_type == FRAME_AUTH_RESPONSE {
            let reply = match message::parse_auth_response(f.body) {
                Some((m, _)) => Ok(m),
                None => Err(ErrorView::UnexpectedEof),
            };
            if id == CONTROL_STREAM && self.awaiting_auth {
                StepView::Authenticated(reply)
            } else if !self.server && self.pending_auth.contains(id) {
                StepView::SessionAuthenticated { stream_id: id, reply }
            } else {
                StepView::Idle
            }
        } else if f.frame_type == FRAME_OPEN_STREAM {
            if self.gated(id) {
                StepView::Send(ack_frame(id, unauthenticated_ack()))
            } else {
                match address::parse_address(f.body) {
                    Ok((address, _)) => StepView::Incoming { stream_id: id, address },
                    Err(_) => StepView::Idle,
                }
            }
        } else if f.frame_type == FRAME_OPEN_STREAM_ACK {
            if !self.pending.contains(id) {
                StepView::Idle
            } else {
                match message::parse_open_stream_ack(f.body) {
                    Some((ack, _)) => if ack.status == STATUS_OK {
                        StepView::Opened { stream_id: id }
                    } else {
                        StepView::Refused {
                            stream_id: id,
                            error: ErrorView::Message(address::received_text(ack.message)),
                        }
                    },
                    None => StepView::Refused { stream_id: id, error: ErrorView::UnexpectedEof },
                }
            }
        } else if f.frame_type == FRAME_STREAM_DATA {
            if self.streams.contains(id) {
                StepView::Deliver { stream_id: id, body: f.body }
            } else {
                StepView::Idle
            }
        } else if f.frame_type == FRAME_STREAM_CREDIT {
            match varint::parse_varint(f.body) {
                Some((amount, _)) => if id != CONTROL_STREAM && self.streams.contains(id) {
                    StepView::Grant { stream_id: id, amount }
                } else {
                    StepView::Idle
                },
                None => StepView::Idle,
            }
        } else if f.frame_type == FRAME_STREAM_CLOSE {
            if self.streams.contains(id) {
                StepView::Closed { stream_id: id }
            } else {
                StepView::Idle
            }
        } else if f.frame_type == FRAME_DATAGRAM {
            if self.gated(id) {
                StepView::Idle
            } else {
                match message::parse_datagram(f.body) {
                    Ok(d) => StepView::Packet(d),
                    Err(_) => StepView::Idle,
                }
            }
        } else if f.frame_type == FRAME_PING {
            StepView::Send(
                FrameView { stream_id: CONTROL_STREAM, frame_type: FRAME_PONG, body: f.body },
            )
        } else {
            StepView::Idle
        }
    }

    /// The state after the frame `f`.
    pub open spec fn after(self, f: FrameView) -> MuxView {
        match self.reaction(f) {
            StepView::Authenticated(_) => MuxView { awaiting_auth: false, ..self },
            StepView::SessionAuthenticated { stream_id, .. } => MuxView {
                pending_auth: self.pending_auth.remove(stream_id),
                ..self
            },
            StepView::Opened { stream_id } => MuxView {
                pending: self.pending.remove(stream_id),
                streams: self.streams.insert(stream_id),
                ..self
            },
            StepView::Refused { stream_id, .. } => MuxView {
                pending: self.pending.remove(stream_id),
                ..self
            },
            StepView::Closed { stream_id } => MuxView {
                streams: self.streams.remove(stream_id),
                ..self
            },
            _ => self,
        }
    }
}

/// What is to be done is seen as it is: its kind, its stream, and all that it carries.
pub proof fn law_steps_are_seen_as_they_are(step: Step)
    ensures
        match step {
            Step::Idle => step@ == StepView::Idle,
            Step::Send(f) => step@ == StepView::Send(f@),
            Step::SendAndClose(f) => step@ == StepView::SendAndClose(f@),
            Step::Validate { stream_id, request } => step@ == (StepView::Validate {
                stream_id,
                request: request@,
            }),
            Step::Authenticated(Ok(m)) => step@ == StepView::Authenticated(Ok(m@)),
            Step::Authenticated(Err(e)) => step@ == StepView::Authenticated(Err(e@)),
            Step::SessionAuthenticated { stream_id, reply: Ok(m) } => step@
                == (StepView::SessionAuthenticated { stream_id, reply: Ok(m@) }),
            Step::SessionAuthenticated { stream_id, reply: Err(e) } => step@
                == (StepView::SessionAuthenticated { stream_id, reply: Err(e@) }),
            Step::Incoming { stream_id, address } => step@ == (StepView::Incoming {
                stream_id,
                address: address@,
            }),
            Step::Opened { stream_id } => step@ == (StepView::Opened { stream_id }),
            Step::Refused { stream_id, error } => step@ == (StepView::Refused {
                stream_id,
                error: error@,
            }),
            Step::Deliver { stream_id, body } => step@ == (StepView::Deliver {
                stream_id,
                body: body@,
            }),
            Step::Grant { stream_id, amount } => step@ == (StepView::Grant { stream_id, amount }),
            Step::Closed { stream_id } => step@ == (StepView::Closed { stream_id }),
            Step::Packet(d) => step@ == StepView::Packet(d@),
        },
{
}

/// A stream in a session that is not authenticated is refused with a protocol error, and
/// nothing else changes.
pub proof fn law_unauthenticated_open_refused(s: MuxView, f: FrameView)
    requires
        f.stream_id != 0,
        s.sessions matches Some(set) && !set.contains(f.stream_id),
        f.frame_type == FRAME_OPEN_STREAM,
    ensures
        s.reaction(f) == StepView::Send(ack_frame(f.stream_id, unauthenticated_ack())),
        s.after(f) == s,
        unauthenticated_ack().status == 0x01,
        unauthenticated_ack().error_code == 0x05,
        unauthenticated_ack().message == encode_utf8("session not authenticated"@),
{
}

/// A packet in a session that is not authenticated is dropped.
pub proof fn law_unauthenticated_packet_dropped(s: MuxView, f: FrameView)
    requires
        f.stream_id != 0,
        s.sessions matches Some(set) && !set.contains(f.stream_id),
        f.frame_type == FRAME_DATAGRAM,
    ensures
        s.reaction(f) == StepView::Idle,
        s.after(f) == s,
{
}

/// No frame authenticates a session by itself, nor makes the control stream authenticated:
/// only a verdict does.
pub proof fn law_frames_never_authenticate(s: MuxView, f: FrameView)
    ensures
        s.after(f).sessions == s.sessions,
        s.after(f).handshake_open == s.handshake_open,
        s.after(f).server == s.server,
{
}

/// A received frame opens at most its own stream, and only one that was asked for.
pub proof fn law_streams_open_on_request(s: MuxView, f: FrameView, id: u64)
    requires
        s.after(f).streams.contains(id),
    ensures
        s.streams.contains(id) || (id == f.stream_id && s.pending.contains(id)),
{
}

/// Data and credit reach open streams only.
pub proof fn law_data_reaches_open_streams_only(s: MuxView, f: FrameView)
    ensures
        s.reaction(f) matches StepView::Deliver { stream_id, .. } ==> s.streams.contains(
            stream_id,
        ),
        s.reaction(f) matches StepView::Grant { stream_id, .. } ==> s.streams.contains(stream_id),
{
}

/// What comes in on a stream after the peer has closed it is ignored.
pub proof fn law_nothing_after_close(s: MuxView, close: FrameView, later: FrameView)
    requires
        close.frame_type == FRAME_STREAM_CLOSE,
        later.stream_id == close.stream_id,
        later.frame_type == FRAME_STREAM_DATA || later.frame_type == FRAME_STREAM_CREDIT
            || later.frame_type == FRAME_STREAM_CLOSE,
    ensures
        s.after(close).reaction(later) == StepView::Idle,
        s.after(close).after(later) == s.after(close),
{
}

/// A request for a stream is answered once: a second answer is ignored.
pub proof fn law_ack_counts_once(s: MuxView, first: FrameView, second: FrameView)
    requires
        first.frame_type == FRAME_OPEN_STREAM_ACK,
        second.frame_type == FRAME_OPEN_STREAM_ACK,
        first.stream_id == second.stream_id,
    ensures
        s.after(first).reaction(second) == StepView::Idle,
{
}

/// The answer to the first authentication counts once.
pub proof fn law_auth_answer_counts_once(s: MuxView, first: FrameView, second: FrameView)
    requires
        first.frame_type == FRAME_AUTH_RESPONSE,
        first.stream_id == CONTROL_STREAM,
    ensures
        !(s.after(first).reaction(second) is Authenticated),
{
}

/// An authentication that a client sends is put before the judge as it was sent.
pub proof fn law_auth_request_reaches_judge(s: MuxView, id: u64, m: AuthRequestView)
    requires
        s.server,
        m.fits(),
    ensures
        s.reaction(auth_request_frame(id, m)) == (StepView::Validate { stream_id: id, request: m }),
{
    message::law_auth_request_roundtrip(m, Seq::empty());
    assert(message::auth_request_bytes(m) + Seq::<u8>::empty() =~= message::auth_request_bytes(m));
}

/// The answer to an authentication reaches whoever waits for it as it was sent.
pub proof fn law_auth_answer_reaches_client(s: MuxView, id: u64, m: AuthResponseView)
    requires
        m.fits(),
    ensures
        id == CONTROL_STREAM && s.awaiting_auth ==> s.reaction(auth_response_frame(id, m))
            == StepView::Authenticated(Ok(m)),
        id != CONTROL_STREAM && !s.server && s.pending_auth.contains(id) ==> s.reaction(
            auth_response_frame(id, m),
        ) == (StepView::SessionAuthenticated { stream_id: id, reply: Ok(m) }),
{
    message::law_auth_response_roundtrip(m, Seq::empty());
    assert(message::auth_response_bytes(m) + Seq::<u8>::empty() =~= message::auth_response_bytes(
        m,
    ));
}

/// A request for a stream that is not turned away reaches the peer with its address.
pub proof fn law_open_reaches_peer(s: MuxView, id: u64, a: AddressView)
    requires
        id == 0 || (s.sessions matches Some(set) ==> set.contains(id)),
        a.fits(),
    ensures
        s.reaction(open_frame(id, a)) == (StepView::Incoming { stream_id: id, address: a }),
        s.after(open_frame(id, a)) == s,
{
    address::law_address_roundtrip(a, Seq::empty());
    assert(address::address_bytes(a) + Seq::<u8>::empty() =~= address::address_bytes(a));
}

/// The answer to a request for a stream reaches whoever asked: a success opens the stream,
/// anything else refuses it with the peer's reason.
pub proof fn law_ack_reaches_opener(s: MuxView, id: u64, ack: OpenStreamAckView)
    requires
        s.pending.contains(id),
        wire::can_prefix(ack.message),
    ensures
        ack.status == STATUS_OK ==> s.reaction(ack_frame(id, ack)) == (StepView::Opened {
            stream_id: id,
        }) && s.after(ack_frame(id, ack)).streams.contains(id),
        ack.status != STATUS_OK ==> s.reaction(ack_frame(id, ack)) == (StepView::Refused {
            stream_id: id,
            error: ErrorView::Message(address::received_text(ack.message)),
        }) && s.after(ack_frame(id, ack)).streams == s.streams,
        !s.after(ack_frame(id, ack)).pending.contains(id),
{
    message::law_open_stream_ack_roundtrip(ack, Seq::empty());
    assert(message::open_stream_ack_bytes(ack) + Seq::<u8>::empty()
        =~= message::open_stream_ack_bytes(ack));
}

/// A packet reaches the peer as it was sent.
pub proof fn law_packet_reaches_peer(s: MuxView, d: DatagramView)
    requires
        d.address.fits(),
    ensures
        s.reaction(datagram_frame_view(d)) == StepView::Packet(d),
        s.after(datagram_frame_view(d)) == s,
{
    message::law_datagram_roundtrip(d);
}

/// A packet is taken in on every stream whose session is authenticated, and on any stream where
/// sessions need not be.
pub proof fn law_packet_taken_in_where_authenticated(s: MuxView, id: u64, d: DatagramView)
    requires
        id == 0 || (s.sessions matches Some(set) ==> set.contains(id)),
        d.address.fits(),
    ensures
        ({
            let f = FrameView {
                stream_id: id,
                frame_type: 0x05,
                body: message::datagram_bytes(d),
            };
            s.reaction(f) == StepView::Packet(d) && s.after(f) == s
        }),
{
    message::law_datagram_roundtrip(d);
}

/// Data on an open stream is handed to that stream, byte for byte, at either end; on any other
/// stream it is ignored. Nothing else changes.
pub proof fn law_data_is_delivered(s: MuxView, id: u64, b: Seq<u8>)
    ensures
        ({
            let f = FrameView { stream_id: id, frame_type: 0x03, body: b };
            &&& s.streams.contains(id) ==> s.reaction(f) == (StepView::Deliver {
                stream_id: id,
                body: b,
            })
            &&& !s.streams.contains(id) ==> s.reaction(f) == StepView::Idle
            &&& s.after(f) == s
        }),
{
}

/// The end of an open stream is told to that stream, at either end, and closes it; on any other
/// stream it is ignored.
pub proof fn law_end_reaches_stream(s: MuxView, id: u64, b: Seq<u8>)
    ensures
        ({
            let f = FrameView { stream_id: id, frame_type: 0x04, body: b };
            &&& s.streams.contains(id) ==> s.reaction(f) == (StepView::Closed { stream_id: id })
            &&& !s.streams.contains(id) ==> s.reaction(f) == StepView::Idle
            &&& s.after(f) == (MuxView { streams: s.streams.remove(id), ..s })
        }),
{
}

/// A ping is answered on the control stream with a pong that carries the same bytes.
pub proof fn law_ping_is_answered(s: MuxView, id: u64, b: Seq<u8>)
    ensures
        ({
            let f = FrameView { stream_id: id, frame_type: 0x06, body: b };
            &&& s.reaction(f) matches StepView::Send(r) && r.stream_id == 0 && r.frame_type == 0x07
                && r.body == b
            &&& s.after(f) == s
        }),
{
}

/// A frame of any other type asks for nothing and changes nothing.
pub proof fn law_other_frames_ignored(s: MuxView, f: FrameView)
    requires
        f.frame_type == 0 || f.frame_type == 0x07 || f.frame_type == 0x0a || f.frame_type > 0x0b,
    ensures
        s.reaction(f) == StepView::Idle,
        s.after(f) == s,
{
}

/// A frame concerns its own stream only: every other stream stays open, asked for or waiting
/// for its authentication exactly if it was, and whatever a frame asks for names the stream
/// that it came on.
pub proof fn law_frame_concerns_its_stream(s: MuxView, f: FrameView, other: u64)
    requires
        other != f.stream_id,
    ensures
        s.after(f).streams.contains(other) == s.streams.contains(other),
        s.after(f).pending.contains(other) == s.pending.contains(other),
        s.after(f).pending_auth.contains(other) == s.pending_auth.contains(other),
        s.after(f).awaiting_auth != s.awaiting_auth ==> f.stream_id == 0 && f.frame_type == 0x09,
        match s.reaction(f) {
            StepView::Validate { stream_id, .. } => stream_id == f.stream_id,
            StepView::SessionAuthenticated { stream_id, .. } => stream_id == f.stream_id,
            StepView::Incoming { stream_id, .. } => stream_id == f.stream_id,
            StepView::Opened { stream_id } => stream_id == f.stream_id,
            StepView::Refused { stream_id, .. } => stream_id == f.stream_id,
            StepView::Deliver { stream_id, .. } => stream_id == f.stream_id,
            StepView::Grant { stream_id, .. } => stream_id == f.stream_id,
            StepView::Closed { stream_id } => stream_id == f.stream_id,
            _ => true,
        },
{
}

/// An authentication that cannot be read is answered with a refusal on its own stream. On the
/// control stream the connection is closed with it, on any other it goes on.
pub proof fn law_unreadable_authentication_refused(s: MuxView, id: u64, b: Seq<u8>)
    requires
        s.server,
        message::parse_auth_request(b) is None,
    ensures
        ({
            let f = FrameView { stream_id: id, frame_type: 0x08, body: b };
            let refusal = auth_response_frame(
                id,
                AuthResponseView::rejected(0x01, "bad request"@),
            );
            &&& id == 0 ==> s.reaction(f) == StepView::SendAndClose(refusal)
            &&& id != 0 ==> s.reaction(f) == StepView::Send(refusal)
            &&& s.after(f) == s
        }),
{
}

/// Only a server judges authentications: a client ignores them. And only whoever waits for an
/// answer to one takes it; an answer that cannot be read is told as such.
pub proof fn law_authentication_frames_out_of_place(s: MuxView, id: u64, b: Seq<u8>)
    ensures
        ({
            let request = FrameView { stream_id: id, frame_type: 0x08, body: b };
            let answer = FrameView { stream_id: id, frame_type: 0x09, body: b };
            let waited_for = (id == 0 && s.awaiting_auth) || (!s.server
                && s.pending_auth.contains(id));
            &&& !s.server ==> s.reaction(request) == StepView::Idle
            &&& s.after(request) == s
            &&& !waited_for ==> s.reaction(answer) == StepView::Idle && s.after(answer) == s
            &&& waited_for && message::parse_auth_response(b) is None ==> match s.reaction(
                answer,
            ) {
                StepView::Authenticated(r) => id == 0 && s.awaiting_auth && r
                    == Err::<AuthResponseView, ErrorView>(ErrorView::UnexpectedEof),
                StepView::SessionAuthenticated { stream_id, reply } => stream_id == id && !(id == 0
                    && s.awaiting_auth) && reply == Err::<AuthResponseView, ErrorView>(
                    ErrorView::UnexpectedEof,
                ),
                _ => false,
            }
            &&& id == 0 && s.awaiting_auth ==> s.after(answer) == (MuxView {
                awaiting_auth: false,
                ..s
            })
            &&& !(id == 0 && s.awaiting_auth) && !s.server && s.pending_auth.contains(id)
                ==> s.after(answer) == (MuxView { pending_auth: s.pending_auth.remove(id), ..s })
        }),
{
}

/// An answer to a request for a stream that cannot be read refuses the stream; one to a stream
/// that nobody asked for is ignored.
pub proof fn law_ack_out_of_place(s: MuxView, id: u64, b: Seq<u8>)
    ensures
        ({
            let f = FrameView { stream_id: id, frame_type: 0x02, body: b };
            &&& !s.pending.contains(id) ==> s.reaction(f) == StepView::Idle && s.after(f) == s
            &&& s.pending.contains(id) && message::parse_open_stream_ack(b) is None
                ==> s.reaction(f) == (StepView::Refused {
                stream_id: id,
                error: ErrorView::UnexpectedEof,
            }) && s.after(f) == (MuxView { pending: s.pending.remove(id), ..s })
        }),
{
}

/// A request for a stream whose address cannot be read, a packet that cannot be read, and credit
/// that cannot be read or concerns no open stream are ignored.
pub proof fn law_unreadable_frames_ignored(s: MuxView, f: FrameView)
    requires
        ({
            ||| f.frame_type == 0x05 && message::parse_datagram(f.body) is Err
            ||| f.frame_type == 0x0b && (varint::parse_varint(f.body) is None || f.stream_id == 0
                || !s.streams.contains(f.stream_id))
            ||| f.frame_type == 0x01 && address::parse_address(f.body) is Err && (f.stream_id == 0
                || (s.sessions matches Some(set) ==> set.contains(f.stream_id)))
        }),
    ensures
        s.reaction(f) == StepView::Idle,
        s.after(f) == s,
{
}

/// On the wire a request for a stream is a frame of type 1, the answer to it of type 2, a packet
/// of type 5 on the control stream, an authentication of type 8 and the answer to it of type 9;
/// each of the others is on the stream that it is about.
pub proof fn law_frame_types(
    id: u64,
    a: AddressView,
    ack: OpenStreamAckView,
    d: DatagramView,
    request: AuthRequestView,
    response: AuthResponseView,
)
    ensures
        open_frame(id, a).stream_id == id && open_frame(id, a).frame_type == 0x01,
        ack_frame(id, ack).stream_id == id && ack_frame(id, ack).frame_type == 0x02,
        datagram_frame_view(d).stream_id == 0 && datagram_frame_view(d).frame_type == 0x05,
        auth_request_frame(id, request).stream_id == id && auth_request_frame(
            id,
            request,
        ).frame_type == 0x08,
        auth_response_frame(id, response).stream_id == id && auth_response_frame(
            id,
            response,
        ).frame_type == 0x09,
{
}

/// What reaches the stream `id` of all the data in `frames`, put together in their order.
pub open spec fn delivered(s: MuxView, frames: Seq<FrameView>, id: u64) -> Seq<u8>
    decreases frames.len(),
{
    if frames.len() == 0 {
        Seq::empty()
    } else {
        let before = frames.drop_last();
        match after_frames(s, before).reaction(frames.last()) {
            StepView::Deliver { stream_id, body } => if stream_id == id {
                delivered(s, before, id) + body
            } else {
                delivered(s, before, id)
            },
            _ => delivered(s, before, id),
        }
    }
}

/// The state after all of `frames` have come in.
pub open spec fn after_frames(s: MuxView, frames: Seq<FrameView>) -> MuxView
    decreases frames.len(),
{
    if frames.len() == 0 {
        s
    } else {
        after_frames(s, frames.drop_last()).after(frames.last())
    }
}

/// What the application has written to a stream in `inputs`, put together in its order: the
/// chunks of at most 32768 bytes that it wrote while the stream had not ended and less than
/// 524288 bytes were on the way.
pub open spec fn written(sender: SenderView, inputs: Seq<SendInput>) -> Seq<u8>
    decreases inputs.len(),
{
    if inputs.len() == 0 {
        Seq::empty()
    } else {
        let before = inputs.drop_last();
        let at = sender.run(before);
        match inputs.last() {
            SendInput::Chunk(b) => if !at.finished && at.outstanding < 524_288 && b.len()
                <= 32_768 {
                written(sender, before) + b
            } else {
                written(sender, before)
            },
            _ => written(sender, before),
        }
    }
}

/// A stream carries bytes: whatever is written at one end, whenever credit comes back, what the
/// frames that go out bring to the other end is what was written, in the same order; and the
/// stream is closed there once its end was sent, and not before.
pub proof fn law_stream_carries_bytes(s: MuxView, id: u64, inputs: Seq<SendInput>)
    requires
        s.streams.contains(id),
    ensures
        delivered(s, SenderView::fresh(id).outputs(inputs), id) == written(
            SenderView::fresh(id),
            inputs,
        ),
        after_frames(s, SenderView::fresh(id).outputs(inputs)).streams.contains(id)
            == !SenderView::fresh(id).run(inputs).finished,
    decreases inputs.len(),
{
    let sender = SenderView::fresh(id);
    if inputs.len() > 0 {
        let before = inputs.drop_last();
        law_stream_carries_bytes(s, id, before);
        flow::law_sender_keeps_to_window(id, before);
        let at = sender.run(before);
        let frames = sender.outputs(before);
        if let Some(f) = at.output(inputs.last()) {
            assert(frames.push(f).drop_last() =~= frames);
            assert(sender.outputs(inputs) == frames.push(f));
        }
    }
}

/// The credit that a receiver returns reaches the sender of the stream.
pub proof fn law_credit_reaches_sender(s: MuxView, id: u64, amount: u64)
    requires
        id != CONTROL_STREAM,
        s.streams.contains(id),
        amount < varint::varint_limit(),
    ensures
        s.reaction(flow::credit_frame(id, amount)) == (StepView::Grant { stream_id: id, amount }),
        s.after(flow::credit_frame(id, amount)) == s,
{
    varint::law_varint_roundtrip(amount, Seq::empty());
    assert(varint::varint_bytes(amount) + Seq::<u8>::empty() =~= varint::varint_bytes(amount));
}

/// What the server does once it has judged an authentication.
#[derive(Debug)]
pub struct Judged {
    /// The answer to send.
    pub reply: Frame,
    /// Whether the tunnel is established by this authentication.
    pub established: bool,
    /// Whether the connection has to be closed once the answer is sent.
    pub close: bool,
}

/// The answer that a verdict leads to; a failure to judge is an answer too.
pub open spec fn verdict_response(verdict: Result<AuthResponse>) -> AuthResponseView {
    match verdict {
        Ok(m) => m@,
        Err(e) => AuthResponseView::rejected(ERR_BAD_CREDENTIALS, e@.text()),
    }
}

impl MuxView {
    /// Whether the answer `resp` to an authentication on stream `id` establishes the tunnel:
    /// the first success on the control stream does.
    pub open spec fn establishes(self, id: u64, resp: AuthResponseView) -> bool {
        id == CONTROL_STREAM && self.handshake_open && resp.status == STATUS_OK
    }

    /// Whether the answer `resp` to an authentication on stream `id` closes the connection:
    /// every failure on the control stream does.
    pub open spec fn rejects(self, id: u64, resp: AuthResponseView) -> bool {
        id == CONTROL_STREAM && resp.status != STATUS_OK
    }

    /// The state after the authentication on stream `id` was answered with `resp`.
    pub open spec fn after_verdict(self, id: u64, resp: AuthResponseView) -> MuxView {
        if resp.status != STATUS_OK {
            self
        } else if id == CONTROL_STREAM {
            MuxView { handshake_open: false, ..self }
        } else {
            match self.sessions {
                Some(s) => MuxView { sessions: Some(s.insert(id)), ..self },
                None => self,
            }
        }
    }
}

/// A session becomes authenticated by an accepting verdict on its own stream and in no other
/// way; streams in it are then no longer turned away.
pub proof fn law_verdict_admits_its_session_only(
    s: MuxView,
    id: u64,
    resp: AuthResponseView,
    other: u64,
)
    ensures
        resp.status == STATUS_OK ==> !s.after_verdict(id, resp).gated(id),
        resp.status != STATUS_OK ==> s.after_verdict(id, resp) == s,
        other != id ==> s.after_verdict(id, resp).gated(other) == s.gated(other),
        s.gated(other) <==> other != 0 && (s.sessions matches Some(set) && !set.contains(other)),
{
}

/// A verdict changes who is authenticated and nothing else; on the control stream an acceptance
/// ends the handshake and admits no session.
pub proof fn law_verdict_changes_nothing_else(s: MuxView, id: u64, resp: AuthResponseView)
    ensures
        ({
            let t = s.after_verdict(id, resp);
            &&& t.server == s.server
            &&& t.awaiting_auth == s.awaiting_auth
            &&& t.pending_auth == s.pending_auth
            &&& t.pending == s.pending
            &&& t.streams == s.streams
            &&& t.handshake_open == (s.handshake_open && !(id == 0 && resp.status == 0x00))
            &&& id == 0 ==> t.sessions == s.sessions
            &&& t.sessions is Some == s.sessions is Some
        }),
{
}

/// The answer to an authentication is the verdict itself; where the judge failed, it is a refusal
/// with the reason.
pub proof fn law_answer_is_the_verdict(verdict: Result<AuthResponse>)
    ensures
        match verdict {
            Ok(m) => verdict_response(verdict) == m@,
            Err(e) => verdict_response(verdict).status == 0x01 && verdict_response(
                verdict,
            ).error_code == 0x01 && verdict_response(verdict).message == encode_utf8(e@.text()),
        },
{
}

/// Everything that can happen to a connection.
pub enum MuxInput {
    /// A frame came in.
    Frame(FrameView),
    /// An authentication was judged.
    Verdict { stream_id: u64, response: AuthResponseView },
    /// This end asked for a stream.
    Open(u64),
    /// This end answered a request for a stream.
    ReplyOpen { stream_id: u64, status: u8 },
    /// This end started the authentication of a session.
    Authenticate(u64),
}

impl MuxView {
    /// The state after this end has asked for the stream `id`.
    pub open spec fn after_open(self, id: u64) -> MuxView {
        MuxView { pending: self.pending.insert(id), ..self }
    }

    /// The state after this end has answered a request for the stream `id`.
    pub open spec fn after_reply(self, id: u64, status: u8) -> MuxView {
        if status == STATUS_OK {
            MuxView { streams: self.streams.insert(id), ..self }
        } else {
            self
        }
    }

    /// The state after this end has started the authentication of the session `id`.
    pub open spec fn after_authenticate(self, id: u64) -> MuxView {
        MuxView { pending_auth: self.pending_auth.insert(id), ..self }
    }

    /// The state after `i` has happened.
    pub open spec fn step(self, i: MuxInput) -> MuxView {
        match i {
            MuxInput::Frame(f) => self.after(f),
            MuxInput::Verdict { stream_id, response } => self.after_verdict(stream_id, response),
            MuxInput::Open(id) => self.after_open(id),
            MuxInput::ReplyOpen { stream_id, status } => self.after_reply(stream_id, status),
            MuxInput::Authenticate(id) => self.after_authenticate(id),
        }
    }

    /// The state after all of `inputs` have happened.
    pub open spec fn run(self, inputs: Seq<MuxInput>) -> MuxView
        decreases inputs.len(),
    {
        if inputs.len() == 0 {
            self
        } else {
            self.run(inputs.drop_last()).step(inputs.last())
        }
    }
}

/// What this end does itself changes what it says and nothing else: to ask for a stream makes
/// that stream one that waits for its answer, to answer a request opens the stream exactly on
/// success, and to authenticate a session makes that session wait for its answer.
pub proof fn law_own_moves(s: MuxView, id: u64, status: u8, other: u64)
    ensures
        ({
            let t = s.after_open(id);
            &&& t.pending.contains(other) <==> s.pending.contains(other) || other == id
            &&& t == (MuxView { pending: t.pending, ..s })
        }),
        ({
            let t = s.after_reply(id, status);
            &&& t.streams.contains(other) <==> s.streams.contains(other) || (other == id && status
                == 0x00)
            &&& t == (MuxView { streams: t.streams, ..s })
        }),
        ({
            let t = s.after_authenticate(id);
            &&& t.pending_auth.contains(other) <==> s.pending_auth.contains(other) || other == id
            &&& t == (MuxView { pending_auth: t.pending_auth, ..s })
        }),
{
}

/// The sessions whose authentication was accepted somewhere in `inputs`.
pub open spec fn admitted(inputs: Seq<MuxInput>) -> Set<u64>
    decreases inputs.len(),
{
    if inputs.len() == 0 {
        Set::empty()
    } else {
        let before = admitted(inputs.drop_last());
        match inputs.last() {
            MuxInput::Verdict { stream_id, response } => if response.status == STATUS_OK
                && stream_id != CONTROL_STREAM {
                before.insert(stream_id)
            } else {
                before
            },
            _ => before,
        }
    }
}

/// Whether an authentication on the control stream was accepted somewhere in `inputs`.
pub open spec fn control_admitted(inputs: Seq<MuxInput>) -> bool {
    exists|i: int|
        0 <= i < inputs.len() && (#[trigger] inputs[i] matches MuxInput::Verdict {
            stream_id,
            response,
        } && stream_id == CONTROL_STREAM && response.status == STATUS_OK)
}

/// The streams that this end has asked for or granted somewhere in `inputs`.
pub open spec fn agreed_to(inputs: Seq<MuxInput>) -> Set<u64>
    decreases inputs.len(),
{
    if inputs.len() == 0 {
        Set::empty()
    } else {
        let before = agreed_to(inputs.drop_last());
        match inputs.last() {
            MuxInput::Open(id) => before.insert(id),
            MuxInput::ReplyOpen { stream_id, status } => if status == STATUS_OK {
                before.insert(stream_id)
            } else {
                before
            },
            _ => before,
        }
    }
}

/// Whatever happens on a connection, the authenticated sessions are exactly those whose
/// authentication was accepted.
pub proof fn law_sessions_are_those_admitted(s: MuxView, inputs: Seq<MuxInput>)
    requires
        s.sessions == Some(Set::<u64>::empty()),
    ensures
        s.run(inputs).sessions == Some(admitted(inputs)),
    decreases inputs.len(),
{
    if inputs.len() > 0 {
        law_sessions_are_those_admitted(s, inputs.drop_last());
        let mid = s.run(inputs.drop_last());
        if let MuxInput::Frame(f) = inputs.last() {
            law_frames_never_authenticate(mid, f);
        }
    }
}

/// Whatever happens on a connection, the handshake is over once an authentication on the
/// control stream was accepted, and not before.
pub proof fn law_handshake_ends_on_acceptance(s: MuxView, inputs: Seq<MuxInput>)
    requires
        s.handshake_open,
    ensures
        s.run(inputs).handshake_open == !control_admitted(inputs),
    decreases inputs.len(),
{
    if inputs.len() > 0 {
        let front = inputs.drop_last();
        law_handshake_ends_on_acceptance(s, front);
        if control_admitted(front) {
            let i = choose|i: int|
                0 <= i < front.len() && (#[trigger] front[i] matches MuxInput::Verdict {
                    stream_id,
                    response,
                } && stream_id == CONTROL_STREAM && response.status == STATUS_OK);
            assert(inputs[i] == front[i]);
        }
        if control_admitted(inputs) {
            let i = choose|i: int|
                0 <= i < inputs.len() && (#[trigger] inputs[i] matches MuxInput::Verdict {
                    stream_id,
                    response,
                } && stream_id == CONTROL_STREAM && response.status == STATUS_OK);
            if i < front.len() {
                assert(front[i] == inputs[i]);
            }
        }
        assert(inputs[inputs.len() - 1] == inputs.last());
    }
}

/// A tunnel is established by the first accepted authentication on the control stream, and
/// by nothing else, whatever the peer has sent before.
pub proof fn law_established_on_first_acceptance(
    s: MuxView,
    inputs: Seq<MuxInput>,
    id: u64,
    resp: AuthResponseView,
)
    requires
        s.handshake_open,
    ensures
        s.run(inputs).establishes(id, resp) == (id == CONTROL_STREAM && resp.status == STATUS_OK
            && !control_admitted(inputs)),
        s.run(inputs).rejects(id, resp) == (id == CONTROL_STREAM && resp.status != STATUS_OK),
{
    law_handshake_ends_on_acceptance(s, inputs);
}

/// Where sessions authenticate for themselves, no stream and no packet of a session is
/// taken in before its authentication was accepted, whatever the peer sends.
pub proof fn law_nothing_before_authentication(
    s: MuxView,
    inputs: Seq<MuxInput>,
    f: FrameView,
)
    requires
        s.sessions == Some(Set::<u64>::empty()),
        f.stream_id != CONTROL_STREAM,
        !admitted(inputs).contains(f.stream_id),
    ensures
        !(s.run(inputs).reaction(f) is Incoming),
        !(s.run(inputs).reaction(f) is Packet),
{
    law_sessions_are_those_admitted(s, inputs);
}

proof fn lemma_streams_agreed(s: MuxView, inputs: Seq<MuxInput>)
    requires
        s.streams == Set::<u64>::empty(),
        s.pending == Set::<u64>::empty(),
    ensures
        s.run(inputs).streams.subset_of(agreed_to(inputs)),
        s.run(inputs).pending.subset_of(agreed_to(inputs)),
    decreases inputs.len(),
{
    if inputs.len() > 0 {
        lemma_streams_agreed(s, inputs.drop_last());
    }
}

/// Data is only ever taken in on streams that this end has asked for or granted, whatever
/// the peer sends.
pub proof fn law_no_data_on_unknown_streams(s: MuxView, inputs: Seq<MuxInput>, f: FrameView)
    requires
        s.streams == Set::<u64>::empty(),
        s.pending == Set::<u64>::empty(),
        !agreed_to(inputs).contains(f.stream_id),
    ensures
        !(s.run(inputs).reaction(f) is Deliver),
        !(s.run(inputs).reaction(f) is Grant),
        !(s.run(inputs).reaction(f) is Opened),
{
    lemma_streams_agreed(s, inputs);
}

impl Mux {
    /// The client's end: the first authentication is about to be sent.
    pub fn client() -> (m: Self)
        ensures
            m@ == (MuxView {
                server: false,
                awaiting_auth: true,
                handshake_open: false,
                sessions: None,
                pending_auth: Set::empty(),
                pending: Set::empty(),
                streams: Set::empty(),
            }),
    {
        Mux {
            server: false,
            awaiting_auth: true,
            handshake_open: false,
            sessions: None,
            pending_auth: HashSet::new(),
            pending: HashSet::new(),
            streams: HashSet::new(),
        }
    }

    /// The server's end. With `per_session` every session has to authenticate for itself.
    pub fn server(per_session: bool) -> (m: Self)
        ensures
            m@ == (MuxView {
                server: true,
                awaiting_auth: false,
                handshake_open: true,
                sessions: if per_session {
                    Some(Set::empty())
                } else {
                    None
                },
                pending_auth: Set::empty(),
                pending: Set::empty(),
                streams: Set::empty(),
            }),
    {
        let sessions: Option<HashSet<u64>> = if per_session {
            Some(HashSet::new())
        } else {
            None
        };
        Mux {
            server: true,
            awaiting_auth: false,
            handshake_open: true,
            sessions,
            pending_auth: HashSet::new(),
            pending: HashSet::new(),
            streams: HashSet::new(),
        }
    }

    /// Whether streams and packets may be handed on: on a server, somebody was authenticated on
    /// the control stream.
    pub fn is_established(&self) -> (r: bool)
        ensures
            r == !(self@.server && self@.handshake_open),
    {
        !(self.server && self.handshake_open)
    }

    fn is_gated(&self, id: u64) -> (r: bool)
        ensures
            r == self@.gated(id),
    {
        match &self.sessions {
            Some(s) => id != CONTROL_STREAM && !s.contains(&id),
            None => false,
        }
    }

    /// Takes in one received frame and says what is to be done. Fails where the bytes are
    /// not a frame; the connection is of no use then.
    pub fn handle_frame(&mut self, bytes: &[u8]) -> (r: Result<Step>)
        ensures
            match frame::parse_frame(bytes@) {
                Some((f, _)) => {
                    &&& r matches Ok(step)
                    &&& step@ == old(self)@.reaction(f)
                    &&& final(self)@ == old(self)@.after(f)
                },
                None => r matches Err(Error::UnexpectedEof) && final(self)@ == old(self)@,
            },
    {
        let f = match Frame::decode(bytes) {
            Ok((f, _)) => f,
            Err(e) => return Err(e),
        };
        let ghost fv = f@;
        let ghost before = self@;
        let id: u64 = f.stream_id;
        let step = if f.frame_type == FRAME_AUTH_REQUEST {
            self.on_auth_request(id, f.body.as_slice())
        } else if f.frame_type == FRAME_AUTH_RESPONSE {
            self.on_auth_response(id, f.body.as_slice())
        } else if f.frame_type == FRAME_OPEN_STREAM {
            self.on_open_stream(id, f.body.as_slice())
        } else if f.frame_type == FRAME_OPEN_STREAM_ACK {
            self.on_open_stream_ack(id, f.body.as_slice())
        } else if f.frame_type == FRAME_STREAM_DATA {
            if self.streams.contains(&id) {
                Step::Deliver { stream_id: id, body: f.body }
            } else {
                Step::Idle
            }
        } else if f.frame_type == FRAME_STREAM_CREDIT {
            match varint::decode_varint(f.body.as_slice()) {
                Ok((amount, _)) => if id != CONTROL_STREAM && self.streams.contains(&id) {
                    Step::Grant { stream_id: id, amount }
                } else {
                    Step::Idle
                },
                Err(_) => Step::Idle,
            }
        } else if f.frame_type == FRAME_STREAM_CLOSE {
            if self.streams.remove(&id) {
                Step::Closed { stream_id: id }
            } else {
                assert(self@ =~= before);
                Step::Idle
            }
        } else if f.frame_type == FRAME_DATAGRAM {
            if self.is_gated(id) {
                Step::Idle
            } else {
                match Datagram::decode(f.body.as_slice()) {
                    Ok((d, _)) => Step::Packet(d),
                    Err(_) => Step::Idle,
                }
            }
        } else if f.frame_type == FRAME_PING {
            Step::Send(Frame::new(CONTROL_STREAM, FRAME_PONG, f.body))
        } else {
            Step::Idle
        };
        assert(self@ =~= before.after(fv));
        Ok(step)
    }

    fn on_auth_request(&self, id: u64, body: &[u8]) -> (step: Step)
        ensures
            forall|f: FrameView|
                f.frame_type == FRAME_AUTH_REQUEST && f.stream_id == id && f.body == body@
                    ==> #[trigger] self@.reaction(f) == step@ && self@.after(f) == self@,
    {
        if !self.server {
            return Step::Idle;
        }
        match AuthRequest::decode(body) {
            Ok((request, _)) => Step::Validate { stream_id: id, request },
            Err(_) => {
                let reply = response_frame(id, &AuthResponse::error("bad request"));
                if id == CONTROL_STREAM {
                    Step::SendAndClose(reply)
                } else {
                    Step::Send(reply)
                }
            },
        }
    }

    fn on_auth_response(&mut self, id: u64, body: &[u8]) -> (step: Step)
        ensures
            forall|f: FrameView|
                f.frame_type == FRAME_AUTH_RESPONSE && f.stream_id == id && f.body == body@
                    ==> #[trigger] old(self)@.reaction(f) == step@ && final(self)@ == old(
                    self,
                )@.after(f),
    {
        let ghost before = self@;
        let step = if id == CONTROL_STREAM && self.awaiting_auth {
            self.awaiting_auth = false;
            Step::Authenticated(read_response(body))
        } else if !self.server && self.pending_auth.remove(&id) {
            Step::SessionAuthenticated { stream_id: id, reply: read_response(body) }
        } else {
            Step::Idle
        };
        assert forall|f: FrameView|
            f.frame_type == FRAME_AUTH_RESPONSE && f.stream_id == id && f.body
                == body@ implies #[trigger] before.reaction(f) == step@ && self@ == before.after(
            f,
        ) by {
            assert(self@ =~= before.after(f));
        }
        step
    }

    fn on_open_stream(&self, id: u64, body: &[u8]) -> (step: Step)
        ensures
            forall|f: FrameView|
                f.frame_type == FRAME_OPEN_STREAM && f.stream_id == id && f.body == body@
                    ==> #[trigger] self@.reaction(f) == step@ && self@.after(f) == self@,
    {
        if self.is_gated(id) {
            let ack = OpenStreamAck::error_with_code(ERR_PROTOCOL, "session not authenticated");
            return Step::Send(open_ack_frame(id, &ack));
        }
        match OpenStream::decode(body) {
            Ok((req, _)) => Step::Incoming { stream_id: id, address: req.address },
            Err(_) => Step::Idle,
        }
    }

    fn on_open_stream_ack(&mut self, id: u64, body: &[u8]) -> (step: Step)
        ensures
            forall|f: FrameView|
                f.frame_type == FRAME_OPEN_STREAM_ACK && f.stream_id == id && f.body == body@
                    ==> #[trigger] old(self)@.reaction(f) == step@ && final(self)@ == old(
                    self,
                )@.after(f),
    {
        let ghost before = self@;
        let step = if self.pending.remove(&id) {
            match OpenStreamAck::decode(body) {
                Ok((ack, _)) => if ack.status == STATUS_OK {
                    let _ = self.streams.insert(id);
                    Step::Opened { stream_id: id }
                } else {
                    Step::Refused {
                        stream_id: id,
                        error: Error::Message(outside::from_utf8_lossy(ack.message.as_slice())),
                    }
                },
                Err(e) => Step::Refused { stream_id: id, error: e },
            }
        } else {
            Step::Idle
        };
        assert forall|f: FrameView|
            f.frame_type == FRAME_OPEN_STREAM_ACK && f.stream_id == id && f.body
                == body@ implies #[trigger] before.reaction(f) == step@ && self@ == before.after(
            f,
        ) by {
            assert(self@ =~= before.after(f));
        }
        step
    }

    /// Takes in the verdict on the authentication that came on stream `id`. A failed
    /// authentication on the control stream closes the connection.
    pub fn complete_auth(&mut self, id: u64, verdict: Result<AuthResponse>) -> (j: Judged)
        ensures
            final(self)@ == old(self)@.after_verdict(id, verdict_response(verdict)),
            j.reply@ == auth_response_frame(id, verdict_response(verdict)),
            j.established == old(self)@.establishes(id, verdict_response(verdict)),
            j.close == old(self)@.rejects(id, verdict_response(verdict)),
    {
        let resp = match verdict {
            Ok(m) => m,
            Err(e) => AuthResponse::error(e.to_text().as_str()),
        };
        let reply = response_frame(id, &resp);
        let ghost before = self@;
        let accepted = resp.status == STATUS_OK;
        let mut established = false;
        if accepted {
            if id == CONTROL_STREAM {
                established = self.handshake_open;
                self.handshake_open = false;
            } else if let Some(s) = &mut self.sessions {
                let _ = s.insert(id);
            }
        }
        assert(self@ =~= before.after_verdict(id, resp@));
        Judged { reply, established, close: id == CONTROL_STREAM && !accepted }
    }

    /// Asks for a stream to `addr` under the id `id`; gives the frame to send.
    pub fn open(&mut self, id: u64, addr: &Address) -> (f: Frame)
        ensures
            f@ == open_frame(id, addr@),
            final(self)@ == old(self)@.after_open(id),
    {
        let ghost before = self@;
        let mut body: Vec<u8> = Vec::new();
        addr.encode(&mut body);
        let _ = self.pending.insert(id);
        assert(body@ =~= address::address_bytes(addr@));
        assert(self@ =~= before.after_open(id));
        Frame::new(id, FRAME_OPEN_STREAM, body)
    }

    /// Answers the peer's request for the stream `id`; gives the frame to send. The stream
    /// carries data from here on if the answer is a success.
    pub fn reply_open(&mut self, id: u64, status: u8, error_code: u8, message: Vec<u8>) -> (f: Frame)
        ensures
            f@ == ack_frame(id, OpenStreamAckView { status, error_code, message: message@ }),
            final(self)@ == old(self)@.after_reply(id, status),
    {
        let ghost before = self@;
        let ack = OpenStreamAck { status, error_code, message };
        if status == STATUS_OK {
            let _ = self.streams.insert(id);
            assert(self@ =~= before.after_reply(id, status));
        }
        open_ack_frame(id, &ack)
    }

    /// Starts the authentication of the session `id`; gives the frame to send.
    pub fn authenticate(&mut self, id: u64, auth: &AuthRequest) -> (f: Frame)
        ensures
            f@ == auth_request_frame(id, auth@),
            final(self)@ == old(self)@.after_authenticate(id),
    {
        let ghost before = self@;
        let _ = self.pending_auth.insert(id);
        assert(self@ =~= before.after_authenticate(id));
        request_frame(id, auth)
    }
}

impl Mux {
    /// The connection is gone: gives the streams that were asked for and will not be
    /// answered, each once, and whether somebody still waits for the first authentication.
    /// All of them have to be told that the stream is closed.
    pub fn shutdown(&mut self) -> (r: (Vec<u64>, bool))
        ensures
            r.0@.to_set() == old(self)@.pending,
            r.0@.no_duplicates(),
            r.1 == old(self)@.awaiting_auth,
            final(self)@ == (MuxView {
                pending: Set::empty(),
                awaiting_auth: false,
                ..old(self)@
            }),
    {
        let ghost before = self@;
        let mut waiting: Vec<u64> = Vec::new();
        for id in it: self.pending.iter()
            invariant
                waiting@ == it.seq().unref().take(it.index() as int),
                it.seq().unref().to_set() == before.pending,
                it.seq().no_duplicates(),
                it.index() == it.seq().len() ==> waiting@ == it.seq().unref(),
            ensures
                waiting@.to_set() == before.pending,
                waiting@.no_duplicates(),
        {
            waiting.push(*id);
            assert(waiting@ =~= it.seq().unref().take(it.index() as int + 1));
        }
        let auth_waiting = self.awaiting_auth;
        self.awaiting_auth = false;
        self.pending.clear();
        assert(self@ =~= (MuxView { pending: Set::empty(), awaiting_auth: false, ..before }));
        (waiting, auth_waiting)
    }
}

fn read_response(body: &[u8]) -> (r: Result<AuthResponse>)
    ensures
        reply_view(r) == (match message::parse_auth_response(body@) {
            Some((m, _)) => Ok(m),
            None => Err(ErrorView::UnexpectedEof),
        }),
{
    match AuthResponse::decode(body) {
        Ok((m, _)) => Ok(m),
        Err(e) => Err(e),
    }
}

fn response_frame(id: u64, m: &AuthResponse) -> (f: Frame)
    ensures
        f@ == auth_response_frame(id, m@),
{
    let mut body: Vec<u8> = Vec::new();
    m.encode(&mut body);
    assert(body@ =~= message::auth_response_bytes(m@));
    Frame::new(id, FRAME_AUTH_RESPONSE, body)
}

fn open_ack_frame(id: u64, m: &OpenStreamAck) -> (f: Frame)
    ensures
        f@ == ack_frame(id, m@),
{
    let mut body: Vec<u8> = Vec::new();
    m.encode(&mut body);
    assert(body@ =~= message::open_stream_ack_bytes(m@));
    Frame::new(id, FRAME_OPEN_STREAM_ACK, body)
}

/// The frame that carries an `AuthRequest` on the stream `id`.
pub fn request_frame(id: u64, auth: &AuthRequest) -> (f: Frame)
    ensures
        f@ == auth_request_frame(id, auth@),
{
    let mut body: Vec<u8> = Vec::new();
    auth.encode(&mut body);
    assert(body@ =~= message::auth_request_bytes(auth@));
    Frame::new(id, FRAME_AUTH_REQUEST, body)
}

/// The frame that carries a packet.
pub fn datagram_frame(dg: &Datagram) -> (f: Frame)
    ensures
        f@ == datagram_frame_view(dg@),
{
    let mut body: Vec<u8> = Vec::new();
    dg.encode(&mut body);
    assert(body@ =~= message::datagram_bytes(dg@));
    Frame::new(CONTROL_STREAM, FRAME_DATAGRAM, body)
}

/// The frame that ends a stream; on the control stream it ends the tunnel.
pub fn close_frame(id: u64) -> (f: Frame)
    ensures
        f@ == (FrameView { stream_id: id, frame_type: FRAME_STREAM_CLOSE, body: Seq::empty() }),
{
    Frame::new(id, FRAME_STREAM_CLOSE, Vec::new())
}

} // verus!
