//! The loop of one WebSocket connection, without its I/O: what each event means for the
//! connection, and when it is over.

use vstd::prelude::*;

use crate::address;
use crate::address::{Address, AddressView};
use crate::auth;
use crate::bytes;
use crate::error::{ErrorView, Result};
use crate::frame;
use crate::frame::{Frame, FrameView};
use crate::message;
use crate::message::{
    AuthRequest, AuthRequestView, AuthResponse, AuthResponseView, OpenStreamAckView,
};
use crate::metrics::Metrics;
use crate::mux;
use crate::mux::{Judged, Mux, MuxView, Step, StepView};
use crate::obfuscation;
use crate::obfuscation::{Obfuscator, OutcomeView, ReplayFilter};
use crate::varint;
use crate::ws;
use crate::ws::Inbound;

verus! {

/// Something that happened to a connection.
#[derive(Debug)]
pub enum Event {
    /// A frame is to be sent.
    Send(Frame),
    /// A stream to an address is wanted.
    Open { id: u64, address: Address },
    /// The peer's request for a stream is to be answered.
    ReplyOpen { id: u64, status: u8, error_code: u8, message: Vec<u8> },
    /// A session is to be authenticated.
    Authenticate { id: u64, request: AuthRequest },
    /// The connection is to be closed.
    Close,
    /// A binary message came in.
    Binary(Vec<u8>),
    /// The WebSocket layer of the peer asks for a sign of life.
    WsPing(Vec<u8>),
    /// A message of another kind came in.
    OtherMessage,
    /// Receiving failed.
    ReceiveFailed,
    /// The interval between two signs of life is over.
    Tick,
    /// Sending failed, or whoever sends has ended.
    WriterEnded,
}

/// An `Event` over views.
#[verifier::ext_equal]
pub enum EventView {
    Send(FrameView),
    Open { id: u64, address: AddressView },
    ReplyOpen { id: u64, status: u8, error_code: u8, message: Seq<u8> },
    Authenticate { id: u64, request: AuthRequestView },
    Close,
    Binary(Seq<u8>),
    WsPing(Seq<u8>),
    OtherMessage,
    ReceiveFailed,
    Tick,
    WriterEnded,
}

impl View for Event {
    type V = EventView;

    open spec fn view(&self) -> EventView {
        match self {
            Event::Send(f) => EventView::Send(f@),
            Event::Open { id, address } => EventView::Open { id: *id, address: address@ },
            Event::ReplyOpen { id, status, error_code, message } => EventView::ReplyOpen {
                id: *id,
                status: *status,
                error_code: *error_code,
                message: message@,
            },
            Event::Authenticate { id, request } => EventView::Authenticate {
                id: *id,
                request: request@,
            },
            Event::Close => EventView::Close,
            Event::Binary(b) => EventView::Binary(b@),
            Event::WsPing(b) => EventView::WsPing(b@),
            Event::OtherMessage => EventView::OtherMessage,
            Event::ReceiveFailed => EventView::ReceiveFailed,
            Event::Tick => EventView::Tick,
            Event::WriterEnded => EventView::WriterEnded,
        }
    }
}

/// What an event asks the caller to do.
#[derive(Debug)]
pub enum Action {
    /// Nothing.
    Nothing,
    /// Queue a frame for sending.
    Queue(Frame),
    /// Answer on the WebSocket layer, if there is room in the queue.
    WsPong(Vec<u8>),
    /// Carry out what a received frame asks for.
    Carry(Step),
    /// Keep what came in until the tunnel is established, and carry it out then; if it never
    /// is, forget it.
    Hold(Step),
    /// End the connection.
    Stop,
}

/// An `Action` over views.
#[verifier::ext_equal]
pub enum ActionView {
    Nothing,
    Queue(FrameView),
    WsPong(Seq<u8>),
    Carry(StepView),
    Hold(StepView),
    Stop,
}

impl View for Action {
    type V = ActionView;

    open spec fn view(&self) -> ActionView {
        match self {
            Action::Nothing => ActionView::Nothing,
            Action::Queue(f) => ActionView::Queue(f@),
            Action::WsPong(b) => ActionView::WsPong(b@),
            Action::Carry(s) => ActionView::Carry(s@),
            Action::Hold(s) => ActionView::Hold(s@),
            Action::Stop => ActionView::Stop,
        }
    }
}

/// One WebSocket connection.
pub struct Connection {
    mux: Mux,
    obfuscator: Option<Obfuscator>,
    filter: ReplayFilter,
}

/// A connection over views: its multiplexing, its obfuscation key, and the salts seen.
#[verifier::ext_equal]
pub struct ConnectionView {
    pub mux: MuxView,
    pub key: Option<Seq<u8>>,
    pub seen: Seq<u64>,
}

impl View for Connection {
    type V = ConnectionView;

    closed spec fn view(&self) -> ConnectionView {
        ConnectionView {
            mux: self.mux@,
            key: match self.obfuscator {
                Some(ob) => Some(ob@),
                None => None,
            },
            seen: self.filter@,
        }
    }
}

/// The ping that shows the peer that this end is alive.
pub open spec fn ping_frame() -> FrameView {
    FrameView {
        stream_id: frame::CONTROL_STREAM,
        frame_type: frame::FRAME_PING,
        body: Seq::empty(),
    }
}

/// Whether a step hands a stream or a packet of the peer on to the application.
pub open spec fn hands_on(step: StepView) -> bool {
    step is Incoming || step is Packet
}

impl ConnectionView {
    /// What is to be done about the step that a received frame asks for. A server hands nothing
    /// on before somebody was authenticated on the control stream.
    pub open spec fn handled(self, step: StepView) -> ActionView {
        if self.mux.server && self.mux.handshake_open && hands_on(step) {
            ActionView::Hold(step)
        } else {
            ActionView::Carry(step)
        }
    }

    /// The frame bytes in a received message, unless it is to be ignored or ends the
    /// connection.
    pub open spec fn received(self, msg: Seq<u8>) -> ws::InboundView {
        match self.key {
            Some(key) => ws::inbound_of(obfuscation::outcome(self.seen, key, msg)),
            None => ws::InboundView::Frame(msg),
        }
    }

    /// The salts seen after a received message.
    pub open spec fn seen_after(self, msg: Seq<u8>) -> Seq<u64> {
        match self.key {
            Some(key) => obfuscation::seen_after(self.seen, key, msg),
            None => self.seen,
        }
    }

    /// What the event asks to be done.
    pub open spec fn action(self, e: EventView) -> ActionView {
        match e {
            EventView::Send(f) => ActionView::Queue(f),
            EventView::Open { id, address } => ActionView::Queue(mux::open_frame(id, address)),
            EventView::ReplyOpen { id, status, error_code, message } => ActionView::Queue(
                mux::ack_frame(id, OpenStreamAckView { status, error_code, message }),
            ),
            EventView::Authenticate { id, request } => ActionView::Queue(
                mux::auth_request_frame(id, request),
            ),
            EventView::Binary(msg) => match self.received(msg) {
                ws::InboundView::Frame(b) => match frame::parse_frame(b) {
                    Some((f, _)) => self.handled(self.mux.reaction(f)),
                    None => ActionView::Stop,
                },
                ws::InboundView::Drop => ActionView::Nothing,
                ws::InboundView::Close => ActionView::Stop,
            },
            EventView::WsPing(b) => ActionView::WsPong(b),
            EventView::OtherMessage => ActionView::Nothing,
            EventView::Tick => ActionView::Queue(ping_frame()),
            EventView::Close => ActionView::Stop,
            EventView::ReceiveFailed => ActionView::Stop,
            EventView::WriterEnded => ActionView::Stop,
        }
    }

    /// The connection after the event.
    pub open spec fn after(self, e: EventView) -> ConnectionView {
        match e {
            EventView::Open { id, .. } => ConnectionView { mux: self.mux.after_open(id), ..self },
            EventView::ReplyOpen { id, status, .. } => ConnectionView {
                mux: self.mux.after_reply(id, status),
                ..self
            },
            EventView::Authenticate { id, .. } => ConnectionView {
                mux: self.mux.after_authenticate(id),
                ..self
            },
            EventView::Binary(msg) => ConnectionView {
                mux: match self.received(msg) {
                    ws::InboundView::Frame(b) => match frame::parse_frame(b) {
                        Some((f, _)) => self.mux.after(f),
                        None => self.mux,
                    },
                    _ => self.mux,
                },
                seen: self.seen_after(msg),
                ..self
            },
            _ => self,
        }
    }

    /// The counters after the event.
    pub open spec fn counted(self, e: EventView, m: Metrics) -> Metrics {
        match (e, self.key) {
            (EventView::Binary(msg), Some(key)) => match obfuscation::outcome(
                self.seen,
                key,
                msg,
            ) {
                OutcomeView::Payload(_) => m,
                OutcomeView::Replay => Metrics {
                    obfus_replay_dropped: m.obfus_replay_dropped.wrapping_add(1),
                    ..m
                },
                OutcomeView::Invalid => Metrics {
                    obfus_invalid: m.obfus_invalid.wrapping_add(1),
                    ..m
                },
            },
            _ => m,
        }
    }
}

/// Events and actions are seen as they are: their kind, and all that they carry.
pub proof fn law_events_and_actions_are_seen_as_they_are(e: Event, a: Action)
    ensures
        match e {
            Event::Send(f) => e@ == EventView::Send(f@),
            Event::Open { id, address } => e@ == (EventView::Open { id, address: address@ }),
            Event::ReplyOpen { id, status, error_code, message } => e@ == (EventView::ReplyOpen {
                id,
                status,
                error_code,
                message: message@,
            }),
            Event::Authenticate { id, request } => e@ == (EventView::Authenticate {
                id,
                request: request@,
            }),
            Event::Close => e@ == EventView::Close,
            Event::Binary(b) => e@ == EventView::Binary(b@),
            Event::WsPing(b) => e@ == EventView::WsPing(b@),
            Event::OtherMessage => e@ == EventView::OtherMessage,
            Event::ReceiveFailed => e@ == EventView::ReceiveFailed,
            Event::Tick => e@ == EventView::Tick,
            Event::WriterEnded => e@ == EventView::WriterEnded,
        },
        match a {
            Action::Nothing => a@ == ActionView::Nothing,
            Action::Queue(f) => a@ == ActionView::Queue(f@),
            Action::WsPong(b) => a@ == ActionView::WsPong(b@),
            Action::Carry(s) => a@ == ActionView::Carry(s@),
            Action::Hold(s) => a@ == ActionView::Hold(s@),
            Action::Stop => a@ == ActionView::Stop,
        },
{
}

/// A frame that one end queues and sends with a fresh salt has at the other end, if both have
/// the same key, the effect of that frame and of nothing else.
pub proof fn law_sent_frame_takes_effect(
    c: ConnectionView,
    key: Seq<u8>,
    salt: Seq<u8>,
    f: FrameView,
)
    requires
        c.key == Some(key),
        salt.len() == obfuscation::SALT_LEN,
        !c.seen.contains(bytes::be_nat(salt) as u64),
        f.fits(),
    ensures
        ({
            let e = EventView::Binary(
                obfuscation::sealed(key, salt, frame::frame_bytes(f)),
            );
            &&& c.action(e) == c.handled(c.mux.reaction(f))
            &&& c.after(e).mux == c.mux.after(f)
        }),
{
    ws::law_frame_crosses_obfuscated_tunnel(key, salt, c.seen, f);
}

/// Without a key the same holds of the bytes of the frame.
pub proof fn law_plain_frame_takes_effect(c: ConnectionView, f: FrameView)
    requires
        c.key is None,
        f.fits(),
    ensures
        ({
            let e = EventView::Binary(frame::frame_bytes(f));
            &&& c.action(e) == c.handled(c.mux.reaction(f))
            &&& c.after(e).mux == c.mux.after(f)
        }),
{
    frame::law_frame_roundtrip(f, Seq::empty());
    assert(frame::frame_bytes(f) + Seq::<u8>::empty() =~= frame::frame_bytes(f));
}

/// A replayed message changes nothing and keeps the connection; a forged one ends it.
pub proof fn law_replay_ignored_forgery_fatal(c: ConnectionView, key: Seq<u8>, msg: Seq<u8>)
    requires
        c.key == Some(key),
    ensures
        obfuscation::outcome(c.seen, key, msg) is Replay ==> c.action(EventView::Binary(msg))
            == ActionView::Nothing && c.after(EventView::Binary(msg)) == c,
        obfuscation::opened(key, msg) is None ==> c.action(EventView::Binary(msg))
            == ActionView::Stop,
{
}

/// The answer that this end gives to a request for a stream is the one that the opener gets. The
/// one frame that is queued makes a peer that waits for it open the stream if the status is zero,
/// and else refuse it with the reason that was given; and this end counts the stream as open in
/// the first case only.
pub proof fn law_answer_reaches_opener(
    c: ConnectionView,
    peer: MuxView,
    id: u64,
    status: u8,
    error_code: u8,
    message: Seq<u8>,
)
    requires
        peer.pending.contains(id),
        message.len() < 0x4000_0000_0000_0000,
    ensures
        ({
            let e = EventView::ReplyOpen { id, status, error_code, message };
            &&& c.action(e) matches ActionView::Queue(f)
            &&& status == 0x00 ==> peer.reaction(f) == (StepView::Opened { stream_id: id })
            &&& status != 0x00 ==> peer.reaction(f) == (StepView::Refused {
                stream_id: id,
                error: ErrorView::Message(address::received_text(message)),
            })
            &&& peer.after(f).streams.contains(id) == (peer.streams.contains(id) || status == 0x00)
            &&& message::parse_open_stream_ack(f.body) == Some(
                (OpenStreamAckView { status, error_code, message }, Seq::<u8>::empty()),
            )
            &&& status == 0x00 ==> c.after(e).mux.streams == c.mux.streams.insert(id)
            &&& status != 0x00 ==> c.after(e).mux.streams == c.mux.streams
            &&& c.after(e).mux == (MuxView { streams: c.after(e).mux.streams, ..c.mux })
            &&& c.after(e).key == c.key
            &&& c.after(e).seen == c.seen
        }),
{
    let ack = OpenStreamAckView { status, error_code, message };
    mux::law_ack_reaches_opener(peer, id, ack);
    mux::law_own_moves(c.mux, id, status, id);
    message::law_open_stream_ack_roundtrip(ack, Seq::empty());
    assert(message::open_stream_ack_bytes(ack) + Seq::<u8>::empty()
        =~= message::open_stream_ack_bytes(ack));
}

/// A stream that this end asks for is asked for at the peer: the one frame that is queued is a
/// request for the same address under the same id, wherever the peer does not turn the session
/// away, and from then on this end waits for the answer, and does nothing else.
pub proof fn law_request_for_stream_reaches_peer(
    c: ConnectionView,
    peer: MuxView,
    id: u64,
    address: AddressView,
)
    requires
        id == 0 || (peer.sessions matches Some(set) ==> set.contains(id)),
        address.fits(),
    ensures
        ({
            let e = EventView::Open { id, address };
            &&& c.action(e) matches ActionView::Queue(f)
            &&& peer.reaction(f) == (StepView::Incoming { stream_id: id, address })
            &&& c.after(e) == (ConnectionView {
                mux: MuxView { pending: c.mux.pending.insert(id), ..c.mux },
                ..c
            })
        }),
{
    mux::law_open_reaches_peer(peer, id, address);
}

/// A session that this end authenticates is put before the peer's judge with the request that
/// was given, and from then on this end waits for the verdict, and does nothing else.
pub proof fn law_authentication_reaches_judge(
    c: ConnectionView,
    peer: MuxView,
    id: u64,
    request: AuthRequestView,
)
    requires
        peer.server,
        request.fits(),
    ensures
        ({
            let e = EventView::Authenticate { id, request };
            &&& c.action(e) matches ActionView::Queue(f)
            &&& peer.reaction(f) == (StepView::Validate { stream_id: id, request })
            &&& c.after(e) == (ConnectionView {
                mux: MuxView { pending_auth: c.mux.pending_auth.insert(id), ..c.mux },
                ..c
            })
        }),
{
    mux::law_auth_request_reaches_judge(peer, id, request);
}

/// What is to be sent is queued as it is; a ping of the WebSocket layer is answered with its own
/// bytes; the interval between two signs of life ends with a ping, an empty frame of type 6 on
/// the control stream, which a peer answers; messages of another kind are ignored; and the
/// connection ends when it is to be closed or can no longer receive or send. None of it changes
/// the state.
pub proof fn law_plain_events(c: ConnectionView, peer: MuxView, f: FrameView, b: Seq<u8>)
    ensures
        c.action(EventView::Send(f)) == ActionView::Queue(f),
        c.action(EventView::WsPing(b)) == ActionView::WsPong(b),
        c.action(EventView::OtherMessage) == ActionView::Nothing,
        c.action(EventView::Tick) matches ActionView::Queue(ping) && ping.stream_id == 0
            && ping.frame_type == 0x06 && ping.body.len() == 0 && (peer.reaction(
            ping,
        ) matches StepView::Send(pong) && pong.frame_type == 0x07),
        c.action(EventView::Close) == ActionView::Stop,
        c.action(EventView::ReceiveFailed) == ActionView::Stop,
        c.action(EventView::WriterEnded) == ActionView::Stop,
        c.after(EventView::Send(f)) == c,
        c.after(EventView::WsPing(b)) == c,
        c.after(EventView::OtherMessage) == c,
        c.after(EventView::Tick) == c,
        c.after(EventView::Close) == c,
        c.after(EventView::ReceiveFailed) == c,
        c.after(EventView::WriterEnded) == c,
{
}

/// What a received frame asks for is carried out as it is, or kept as it is; it is kept only on a
/// server whose handshake is still open, and only where it would hand a stream or a packet on.
pub proof fn law_step_is_carried_or_kept(c: ConnectionView, step: StepView)
    ensures
        c.handled(step) == ActionView::Carry(step) || c.handled(step) == ActionView::Hold(step),
        c.handled(step) is Hold <==> c.mux.server && c.mux.handshake_open && (step is Incoming
            || step is Packet),
{
}

/// Bytes that are no frame end a connection, and so does a message that was not sealed with its
/// key; the state of the streams stays as it was.
pub proof fn law_garbage_ends_connection(c: ConnectionView, msg: Seq<u8>)
    ensures
        c.key is None && frame::parse_frame(msg) is None ==> c.action(EventView::Binary(msg))
            == ActionView::Stop && c.after(EventView::Binary(msg)) == c,
        c.key matches Some(key) && obfuscation::opened(key, msg) is None ==> c.action(
            EventView::Binary(msg),
        ) == ActionView::Stop && c.after(EventView::Binary(msg)).mux == c.mux,
        c.key matches Some(key) && (obfuscation::opened(key, msg) matches Some(b)
            && frame::parse_frame(b) is None) ==> c.after(EventView::Binary(msg)).mux == c.mux
            && !(c.action(EventView::Binary(msg)) is Carry) && !(c.action(
            EventView::Binary(msg),
        ) is Hold),
        c.after(EventView::Binary(msg)).key == c.key,
{
}

/// Data that is sent on a stream which is open at the other end is handed to that stream there,
/// byte for byte, with obfuscation or without, and changes nothing else there.
pub proof fn law_data_crosses_connection(
    c: ConnectionView,
    salt: Seq<u8>,
    id: u64,
    b: Seq<u8>,
)
    requires
        c.mux.streams.contains(id),
        id < 0x4000_0000_0000_0000,
        b.len() < 0x4000_0000_0000_0000,
        salt.len() == 8,
        !c.seen.contains(bytes::be_nat(salt) as u64),
    ensures
        ({
            let f = FrameView { stream_id: id, frame_type: 0x03, body: b };
            let e = EventView::Binary(
                match c.key {
                    Some(key) => obfuscation::sealed(key, salt, frame::frame_bytes(f)),
                    None => frame::frame_bytes(f),
                },
            );
            &&& c.action(e) == ActionView::Carry(StepView::Deliver { stream_id: id, body: b })
            &&& c.after(e).mux == c.mux
        }),
{
    let f = FrameView { stream_id: id, frame_type: 0x03, body: b };
    mux::law_data_is_delivered(c.mux, id, b);
    match c.key {
        Some(key) => law_sent_frame_takes_effect(c, key, salt, f),
        None => law_plain_frame_takes_effect(c, f),
    }
}

/// A connection remembers the salts of what it has taken in: a sealed frame that comes a second
/// time is ignored and changes nothing. Without a key nothing is remembered.
pub proof fn law_repeated_message_ignored(
    c: ConnectionView,
    key: Seq<u8>,
    salt: Seq<u8>,
    f: FrameView,
    msg: Seq<u8>,
)
    requires
        c.key == Some(key),
        salt.len() == 8,
        !c.seen.contains(bytes::be_nat(salt) as u64),
        f.fits(),
    ensures
        ({
            let e = EventView::Binary(obfuscation::sealed(key, salt, frame::frame_bytes(f)));
            let d = c.after(e);
            &&& d.seen == obfuscation::seen_after(
                c.seen,
                key,
                obfuscation::sealed(key, salt, frame::frame_bytes(f)),
            )
            &&& d.action(e) == ActionView::Nothing
            &&& d.after(e) == d
        }),
        ({
            let plain = ConnectionView { key: None, ..c };
            plain.after(EventView::Binary(msg)).seen == plain.seen
        }),
{
    let w = obfuscation::sealed(key, salt, frame::frame_bytes(f));
    obfuscation::law_fresh_accepted(c.seen, key, salt, frame::frame_bytes(f));
    obfuscation::law_replay_dropped(c.seen, key, w, Seq::empty());
    assert(obfuscation::seen_after_all(
        obfuscation::seen_after(c.seen, key, w),
        key,
        Seq::empty(),
    ) == obfuscation::seen_after(c.seen, key, w));
}

/// The counters tell what came in: a replayed message counts as replayed, one that was not
/// sealed with the key as invalid, each once; nothing else is counted.
pub proof fn law_messages_are_counted(c: ConnectionView, e: EventView, m: Metrics)
    ensures
        ({
            let n = c.counted(e, m);
            let replayed = e matches EventView::Binary(msg) && (c.key matches Some(key)
                && obfuscation::outcome(c.seen, key, msg) is Replay);
            let invalid = e matches EventView::Binary(msg) && (c.key matches Some(key)
                && obfuscation::opened(key, msg) is None);
            &&& n.obfus_replay_dropped == (if replayed {
                m.obfus_replay_dropped.wrapping_add(1)
            } else {
                m.obfus_replay_dropped
            })
            &&& n.obfus_invalid == (if invalid {
                m.obfus_invalid.wrapping_add(1)
            } else {
                m.obfus_invalid
            })
            &&& n == (Metrics {
                obfus_replay_dropped: n.obfus_replay_dropped,
                obfus_invalid: n.obfus_invalid,
                ..m
            })
        }),
{
}

/// Everything that can happen to a connection.
pub enum ConnectionInput {
    Event(EventView),
    /// An authentication was judged.
    Verdict { stream_id: u64, response: AuthResponseView },
}

impl ConnectionView {
    /// The connection after all of `inputs`.
    pub open spec fn run(self, inputs: Seq<ConnectionInput>) -> ConnectionView
        decreases inputs.len(),
    {
        if inputs.len() == 0 {
            self
        } else {
            let before = self.run(inputs.drop_last());
            match inputs.last() {
                ConnectionInput::Event(e) => before.after(e),
                ConnectionInput::Verdict { stream_id, response } => ConnectionView {
                    mux: before.mux.after_verdict(stream_id, response),
                    ..before
                },
            }
        }
    }
}

/// Whether an input is the acceptance of an authentication on the control stream.
pub open spec fn accepts_control(i: ConnectionInput) -> bool {
    i matches ConnectionInput::Verdict { stream_id, response } && stream_id
        == frame::CONTROL_STREAM && response.status == message::STATUS_OK
}

proof fn lemma_waits_for_acceptance(c: ConnectionView, inputs: Seq<ConnectionInput>)
    requires
        c.mux.server,
        c.mux.handshake_open,
        forall|i: int| 0 <= i < inputs.len() ==> !accepts_control(#[trigger] inputs[i]),
    ensures
        c.run(inputs).mux.server,
        c.run(inputs).mux.handshake_open,
    decreases inputs.len(),
{
    if inputs.len() > 0 {
        let front = inputs.drop_last();
        assert forall|i: int| 0 <= i < front.len() implies !accepts_control(
            #[trigger] front[i],
        ) by {
            assert(front[i] == inputs[i]);
        }
        lemma_waits_for_acceptance(c, front);
        assert(!accepts_control(inputs[inputs.len() - 1]));
    }
}

/// Whatever the peer sends, a server hands none of its streams and packets on before an
/// authentication on the control stream was accepted.
pub proof fn law_nothing_handed_on_before_acceptance(
    c: ConnectionView,
    inputs: Seq<ConnectionInput>,
    e: EventView,
)
    requires
        c.mux.server,
        c.mux.handshake_open,
        forall|i: int| 0 <= i < inputs.len() ==> !accepts_control(#[trigger] inputs[i]),
    ensures
        c.run(inputs).action(e) matches ActionView::Carry(step) ==> !hands_on(step),
{
    lemma_waits_for_acceptance(c, inputs);
}

/// Once the tunnel is established nothing is held back any more.
pub proof fn law_nothing_held_once_established(c: ConnectionView, e: EventView)
    requires
        !c.mux.handshake_open,
    ensures
        !(c.action(e) is Hold),
{
}

/// The server's verdict on an authentication is what the client learns, and it decides about
/// the tunnel: the request is put before the judge as the client sent it, a success
/// establishes the tunnel, and anything else closes it.
pub proof fn law_verdict_decides_about_tunnel(
    server: MuxView,
    client: MuxView,
    password: Seq<u8>,
    cc_rx: u64,
    cache: Seq<(Seq<u8>, u64)>,
    request: AuthRequestView,
    now: u64,
)
    requires
        server.server,
        server.handshake_open,
        client.awaiting_auth,
        request.fits(),
        cc_rx < varint::varint_limit(),
    ensures
        ({
            let id = frame::CONTROL_STREAM;
            let verdict = auth::judge(password, cc_rx, cache, request, now);
            &&& server.reaction(mux::auth_request_frame(id, request)) == (StepView::Validate {
                stream_id: id,
                request,
            })
            &&& client.reaction(mux::auth_response_frame(id, verdict))
                == StepView::Authenticated(Ok(verdict))
            &&& server.establishes(id, verdict) == (verdict.status == message::STATUS_OK)
            &&& server.rejects(id, verdict) == (verdict.status != message::STATUS_OK)
        }),
{
    let verdict = auth::judge(password, cc_rx, cache, request, now);
    auth::lemma_judge_fits(password, cc_rx, cache, request, now);
    mux::law_auth_request_reaches_judge(server, frame::CONTROL_STREAM, request);
    mux::law_auth_answer_reaches_client(client, frame::CONTROL_STREAM, verdict);
}

impl Connection {
    /// The client's end of a connection.
    pub fn client(obfuscator: Option<Obfuscator>) -> (c: Self)
        ensures
            c@.mux == (MuxView {
                server: false,
                awaiting_auth: true,
                handshake_open: false,
                sessions: None,
                pending_auth: Set::empty(),
                pending: Set::empty(),
                streams: Set::empty(),
            }),
            c@.key == (match obfuscator {
                Some(ob) => Some(ob@),
                None => None,
            }),
            c@.seen == Seq::<u64>::empty(),
    {
        Connection { mux: Mux::client(), obfuscator, filter: ReplayFilter::new() }
    }

    /// The server's end of a connection. With `per_session` every session has to
    /// authenticate for itself.
    pub fn server(obfuscator: Option<Obfuscator>, per_session: bool) -> (c: Self)
        ensures
            c@.mux == (MuxView {
                server: true,
                awaiting_auth: false,
                handshake_open: true,
                sessions: if per_session {
                    Some(Set::empty())
                } else {
                    None
                },
                pending_auth: Set::empty(),
                pending: Set::empty(),
                streams: Set::empty(),
            }),
            c@.key == (match obfuscator {
                Some(ob) => Some(ob@),
                None => None,
            }),
            c@.seen == Seq::<u64>::empty(),
    {
        Connection { mux: Mux::server(per_session), obfuscator, filter: ReplayFilter::new() }
    }

    /// Takes in an event and says what is to be done.
    pub fn on_event(&mut self, e: Event, metrics: &mut Metrics) -> (a: Action)
        ensures
            a@ == old(self)@.action(e@),
            final(self)@ == old(self)@.after(e@),
            *final(metrics) == old(self)@.counted(e@, *old(metrics)),
    {
        match e {
            Event::Send(f) => Action::Queue(f),
            Event::Open { id, address } => Action::Queue(self.mux.open(id, &address)),
            Event::ReplyOpen { id, status, error_code, message } => Action::Queue(
                self.mux.reply_open(id, status, error_code, message),
            ),
            Event::Authenticate { id, request } => Action::Queue(
                self.mux.authenticate(id, &request),
            ),
            Event::Binary(msg) => {
                let received = match &self.obfuscator {
                    Some(ob) => ws::inbound(msg.as_slice(), Some(ob), &mut self.filter, metrics),
                    None => ws::inbound(msg.as_slice(), None, &mut self.filter, metrics),
                };
                match received {
                    Inbound::Frame(b) => match self.mux.handle_frame(b.as_slice()) {
                        Ok(step) => self.handle(step),
                        Err(_) => Action::Stop,
                    },
                    Inbound::Drop => Action::Nothing,
                    Inbound::Close => Action::Stop,
                }
            },
            Event::WsPing(b) => Action::WsPong(b),
            Event::OtherMessage => Action::Nothing,
            Event::Tick => Action::Queue(Frame::ping()),
            Event::Close => Action::Stop,
            Event::ReceiveFailed => Action::Stop,
            Event::WriterEnded => Action::Stop,
        }
    }

    fn handle(&self, step: Step) -> (a: Action)
        ensures
            a@ == self@.handled(step@),
    {
        let hands_on = match &step {
            Step::Incoming { .. } => true,
            Step::Packet(_) => true,
            _ => false,
        };
        if hands_on && !self.mux.is_established() {
            Action::Hold(step)
        } else {
            Action::Carry(step)
        }
    }

    /// Takes in the verdict on an authentication; see `Mux::complete_auth`.
    pub fn complete_auth(&mut self, id: u64, verdict: Result<AuthResponse>) -> (j: Judged)
        ensures
            final(self)@ == (ConnectionView {
                mux: old(self)@.mux.after_verdict(id, mux::verdict_response(verdict)),
                ..old(self)@
            }),
            j.reply@ == mux::auth_response_frame(id, mux::verdict_response(verdict)),
            j.established == old(self)@.mux.establishes(id, mux::verdict_response(verdict)),
            j.close == old(self)@.mux.rejects(id, mux::verdict_response(verdict)),
    {
        self.mux.complete_auth(id, verdict)
    }

    /// Ends the connection; see `Mux::shutdown`.
    pub fn shutdown(&mut self) -> (r: (Vec<u64>, bool))
        ensures
            r.0@.to_set() == old(self)@.mux.pending,
            r.0@.no_duplicates(),
            r.1 == old(self)@.mux.awaiting_auth,
            final(self)@ == (ConnectionView {
                mux: MuxView { pending: Set::empty(), awaiting_auth: false, ..old(self)@.mux },
                ..old(self)@
            }),
    {
        self.mux.shutdown()
    }
}

} // verus!
