//! Flow control of the streams on a WebSocket connection: a sender may have a window of bytes
//! on the way that the receiver has not credited yet.

use vstd::prelude::*;

use crate::frame::{
    Frame, FrameView, FRAME_STREAM_CLOSE, FRAME_STREAM_CREDIT, FRAME_STREAM_DATA,
};
use crate::varint;

verus! {

/// How many bytes may be on the way before the sender has to wait for credit.
pub const RECV_WINDOW: u64 = 524_288;

/// The receiver returns credit in portions of at least this size.
pub const CREDIT_BATCH: u64 = 262_144;

/// The most bytes that go into one data frame.
pub const CHUNK_LEN: usize = 32_768;

/// What the sender's account of a stream records.
pub enum CreditEvent {
    Sent(u64),
    Granted(u64),
}

/// The bytes on the way after `e`, if there were `before`.
pub open spec fn outstanding_step(before: nat, e: CreditEvent) -> nat {
    match e {
        CreditEvent::Sent(n) => before + n as nat,
        CreditEvent::Granted(n) => if n >= before {
            0
        } else {
            (before - n) as nat
        },
    }
}

/// The bytes on the way after all of `events`.
pub open spec fn outstanding_after(events: Seq<CreditEvent>) -> nat
    decreases events.len(),
{
    if events.len() == 0 {
        0
    } else {
        outstanding_step(outstanding_after(events.drop_last()), events.last())
    }
}

/// The bytes sent in `events`.
pub open spec fn total_sent(events: Seq<CreditEvent>) -> nat
    decreases events.len(),
{
    if events.len() == 0 {
        0
    } else {
        total_sent(events.drop_last()) + (match events.last() {
            CreditEvent::Sent(n) => n as nat,
            CreditEvent::Granted(_) => 0,
        })
    }
}

/// The bytes credited in `events`.
pub open spec fn total_granted(events: Seq<CreditEvent>) -> nat
    decreases events.len(),
{
    if events.len() == 0 {
        0
    } else {
        total_granted(events.drop_last()) + (match events.last() {
            CreditEvent::Sent(_) => 0,
            CreditEvent::Granted(n) => n as nat,
        })
    }
}

/// Whether the sender kept to the rules: it sent only while the window was open, and no more
/// than a chunk at a time.
pub open spec fn disciplined(events: Seq<CreditEvent>) -> bool
    decreases events.len(),
{
    events.len() == 0 || {
        &&& disciplined(events.drop_last())
        &&& events.last() matches CreditEvent::Sent(n) ==> n <= CHUNK_LEN && outstanding_after(
            events.drop_last(),
        ) < RECV_WINDOW
    }
}

/// Whether the receiver credited nothing that had not been sent.
pub open spec fn honest(events: Seq<CreditEvent>) -> bool
    decreases events.len(),
{
    events.len() == 0 || {
        &&& honest(events.drop_last())
        &&& total_granted(events) <= total_sent(events)
    }
}

/// A disciplined sender never has more on the way than the window and one chunk.
pub proof fn law_outstanding_bounded(events: Seq<CreditEvent>)
    requires
        disciplined(events),
    ensures
        outstanding_after(events) < RECV_WINDOW + CHUNK_LEN,
    decreases events.len(),
{
    if events.len() > 0 {
        law_outstanding_bounded(events.drop_last());
    }
}

/// With an honest receiver the account is exact: what is on the way is what was sent and not
/// credited.
pub proof fn law_outstanding_exact(events: Seq<CreditEvent>)
    requires
        honest(events),
    ensures
        outstanding_after(events) == total_sent(events) - total_granted(events),
    decreases events.len(),
{
    if events.len() > 0 {
        law_outstanding_exact(events.drop_last());
    }
}

/// The account at a receiver's credit: what was on the way goes down by the credit and never
/// below nothing; bytes that are sent and then credited leave it as it was.
pub proof fn law_credit_undoes_sending(before: nat, sent: u64, granted: u64)
    ensures
        outstanding_step(before, CreditEvent::Sent(sent)) - before == sent,
        granted <= before ==> before - outstanding_step(before, CreditEvent::Granted(granted))
            == granted,
        granted > before ==> outstanding_step(before, CreditEvent::Granted(granted)) == 0,
        outstanding_step(
            outstanding_step(before, CreditEvent::Sent(sent)),
            CreditEvent::Granted(sent),
        ) == before,
{
}

/// The sender's account of one stream.
#[derive(Debug)]
pub struct StreamCredit {
    outstanding: u64,
}

impl View for StreamCredit {
    type V = nat;

    /// The bytes on the way.
    closed spec fn view(&self) -> nat {
        self.outstanding as nat
    }
}

impl StreamCredit {
    /// Nothing is on the way.
    pub fn new() -> (c: Self)
        ensures
            c@ == 0,
    {
        StreamCredit { outstanding: 0 }
    }

    /// Whether the next chunk may be sent.
    pub fn window_open(&self) -> (r: bool)
        ensures
            r == (self@ < RECV_WINDOW),
            r == (self@ < 524_288),
    {
        self.outstanding < RECV_WINDOW
    }

    /// Records that `n` bytes were sent.
    pub fn sent(&mut self, n: u64)
        requires
            old(self)@ + n <= u64::MAX,
        ensures
            final(self)@ == outstanding_step(old(self)@, CreditEvent::Sent(n)),
    {
        self.outstanding = self.outstanding + n;
    }

    /// Records that the receiver has credited `n` bytes.
    pub fn grant(&mut self, n: u64)
        ensures
            final(self)@ == outstanding_step(old(self)@, CreditEvent::Granted(n)),
    {
        self.outstanding = self.outstanding.saturating_sub(n);
    }
}

/// What can happen to the sending side of a stream.
pub enum SendInput {
    /// The application has written some bytes.
    Chunk(Seq<u8>),
    /// The application writes no more.
    Finish,
    /// The receiver has credited some bytes.
    Granted(u64),
}

/// The sending side of a stream: its id, the bytes on the way, and whether its end has been
/// sent.
#[verifier::ext_equal]
pub struct SenderView {
    pub id: u64,
    pub outstanding: nat,
    pub finished: bool,
}

impl SenderView {
    /// The sending side of a stream on which nothing has been sent.
    pub open spec fn fresh(id: u64) -> SenderView {
        SenderView { id, outstanding: 0, finished: false }
    }

    /// Whether the next chunk may be sent.
    pub open spec fn ready(self) -> bool {
        !self.finished && self.outstanding < RECV_WINDOW
    }

    /// The frame that the input leads to, if it does.
    pub open spec fn output(self, i: SendInput) -> Option<FrameView> {
        match i {
            SendInput::Chunk(b) => if self.ready() && b.len() <= CHUNK_LEN {
                Some(FrameView { stream_id: self.id, frame_type: FRAME_STREAM_DATA, body: b })
            } else {
                None
            },
            SendInput::Finish => if self.finished {
                None
            } else {
                Some(
                    FrameView {
                        stream_id: self.id,
                        frame_type: FRAME_STREAM_CLOSE,
                        body: Seq::empty(),
                    },
                )
            },
            SendInput::Granted(_) => None,
        }
    }

    /// The sending side after the input.
    pub open spec fn after(self, i: SendInput) -> SenderView {
        match i {
            SendInput::Chunk(b) => if self.output(i) is Some {
                SenderView { outstanding: self.outstanding + b.len(), ..self }
            } else {
                self
            },
            SendInput::Finish => SenderView { finished: true, ..self },
            SendInput::Granted(n) => SenderView {
                outstanding: outstanding_step(self.outstanding, CreditEvent::Granted(n)),
                ..self
            },
        }
    }

    /// The sending side after all of `inputs`.
    pub open spec fn run(self, inputs: Seq<SendInput>) -> SenderView
        decreases inputs.len(),
    {
        if inputs.len() == 0 {
            self
        } else {
            self.run(inputs.drop_last()).after(inputs.last())
        }
    }

    /// The frames that all of `inputs` lead to, in their order.
    pub open spec fn outputs(self, inputs: Seq<SendInput>) -> Seq<FrameView>
        decreases inputs.len(),
    {
        if inputs.len() == 0 {
            Seq::empty()
        } else {
            let before = self.outputs(inputs.drop_last());
            match self.run(inputs.drop_last()).output(inputs.last()) {
                Some(f) => before.push(f),
                None => before,
            }
        }
    }
}

/// Whatever the application and the receiver do, a stream never has more on the way than the
/// window and one chunk.
pub proof fn law_sender_keeps_to_window(id: u64, inputs: Seq<SendInput>)
    ensures
        SenderView::fresh(id).run(inputs).outstanding < RECV_WINDOW + CHUNK_LEN,
        SenderView::fresh(id).run(inputs).id == id,
    decreases inputs.len(),
{
    if inputs.len() > 0 {
        law_sender_keeps_to_window(id, inputs.drop_last());
    }
}

/// The end of a stream is sent at most once and after all of its data: it is the last frame,
/// if it is there at all.
pub proof fn law_close_comes_last(id: u64, inputs: Seq<SendInput>, k: int)
    requires
        0 <= k < SenderView::fresh(id).outputs(inputs).len(),
    ensures
        ({
            let frames = SenderView::fresh(id).outputs(inputs);
            &&& frames[k].stream_id == id
            &&& k < frames.len() - 1 || !SenderView::fresh(id).run(inputs).finished
                ==> frames[k].frame_type == FRAME_STREAM_DATA
            &&& k == frames.len() - 1 && SenderView::fresh(id).run(inputs).finished
                ==> frames[k].frame_type == FRAME_STREAM_CLOSE
        }),
    decreases inputs.len(),
{
    let s = SenderView::fresh(id);
    if inputs.len() > 0 {
        let front = inputs.drop_last();
        law_sender_keeps_to_window(id, front);
        let before = s.outputs(front);
        if k < before.len() {
            law_close_comes_last(id, front, k);
        }
    }
}

/// A sender takes a chunk exactly while its stream has not ended, less than 524288 bytes are on
/// the way and the chunk has at most 32768 bytes. What it takes goes out whole, as data of its
/// own stream, and counts as on the way; what it does not take changes nothing.
pub proof fn law_chunk_goes_out_whole(s: SenderView, b: Seq<u8>)
    ensures
        ({
            let out = s.output(SendInput::Chunk(b));
            let next = s.after(SendInput::Chunk(b));
            &&& out is Some <==> !s.finished && s.outstanding < 524_288 && b.len() <= 32_768
            &&& out matches Some(f) ==> f.stream_id == s.id && f.frame_type == 0x03 && f.body == b
            &&& out is Some ==> next.outstanding - s.outstanding == b.len()
            &&& out is None ==> next == s
            &&& next.id == s.id
            &&& next.finished == s.finished
        }),
{
}

/// The end of a stream goes out once, as an empty frame of its own stream, and nothing goes out
/// after it.
pub proof fn law_end_goes_out_once(s: SenderView, later: SendInput)
    ensures
        ({
            let out = s.output(SendInput::Finish);
            let next = s.after(SendInput::Finish);
            &&& out is Some <==> !s.finished
            &&& out matches Some(f) ==> f.stream_id == s.id && f.frame_type == 0x04 && f.body
                == Seq::<u8>::empty()
            &&& next.finished
            &&& next.id == s.id
            &&& next.outstanding == s.outstanding
            &&& next.output(later) is None
            &&& next.after(later).finished
        }),
{
}

/// Credit lets a sender go on: it takes off what is on the way, sends nothing, and a stream that
/// has not ended is ready exactly while less than 524288 bytes are on the way.
pub proof fn law_credit_lets_sender_go_on(s: SenderView, n: u64)
    ensures
        ({
            let next = s.after(SendInput::Granted(n));
            &&& s.output(SendInput::Granted(n)) is None
            &&& n <= s.outstanding ==> s.outstanding - next.outstanding == n
            &&& n > s.outstanding ==> next.outstanding == 0
            &&& next.id == s.id
            &&& next.finished == s.finished
            &&& next.ready() <==> !s.finished && s.outstanding < 524_288 + n
        }),
{
}

/// A sender starts with nothing on the way, on its own stream, ready to send.
pub proof fn law_fresh_sender_is_ready(id: u64)
    ensures
        SenderView::fresh(id).id == id,
        SenderView::fresh(id).outstanding == 0,
        !SenderView::fresh(id).finished,
        SenderView::fresh(id).ready(),
{
}

/// The sending side of one stream.
#[derive(Debug)]
pub struct StreamSender {
    id: u64,
    credit: StreamCredit,
    finished: bool,
}

impl View for StreamSender {
    type V = SenderView;

    closed spec fn view(&self) -> SenderView {
        SenderView { id: self.id, outstanding: self.credit@, finished: self.finished }
    }
}

impl StreamSender {
    #[verifier::type_invariant]
    spec fn within_window(self) -> bool {
        self.credit@ < RECV_WINDOW + CHUNK_LEN
    }

    /// Nothing has been sent.
    pub fn new(id: u64) -> (s: Self)
        ensures
            s@ == SenderView::fresh(id),
    {
        StreamSender { id, credit: StreamCredit::new(), finished: false }
    }

    /// Whether the next chunk may be sent.
    pub fn ready(&self) -> (r: bool)
        ensures
            r == self@.ready(),
    {
        !self.finished && self.credit.window_open()
    }

    /// Sends a chunk, if the window is open and it is not too long; gives the frame to queue.
    pub fn send(&mut self, chunk: Vec<u8>) -> (f: Option<Frame>)
        ensures
            final(self)@ == old(self)@.after(SendInput::Chunk(chunk@)),
            match old(self)@.output(SendInput::Chunk(chunk@)) {
                Some(v) => f matches Some(fr) && fr@ == v,
                None => f is None,
            },
    {
        if !self.ready() || chunk.len() > CHUNK_LEN {
            return None;
        }
        let mut credit = StreamCredit { outstanding: self.credit.outstanding };
        credit.sent(chunk.len() as u64);
        self.credit = credit;
        Some(Frame::data(self.id, chunk))
    }

    /// Ends the stream; gives the frame to queue, the first time.
    pub fn finish(&mut self) -> (f: Option<Frame>)
        ensures
            final(self)@ == old(self)@.after(SendInput::Finish),
            match old(self)@.output(SendInput::Finish) {
                Some(v) => f matches Some(fr) && fr@ == v,
                None => f is None,
            },
    {
        if self.finished {
            return None;
        }
        proof {
            use_type_invariant(&*self);
        }
        self.finished = true;
        Some(Frame::new(self.id, FRAME_STREAM_CLOSE, Vec::new()))
    }

    /// The receiver has credited `n` bytes.
    pub fn grant(&mut self, n: u64)
        ensures
            final(self)@ == old(self)@.after(SendInput::Granted(n)),
    {
        proof {
            use_type_invariant(&*self);
        }
        let mut credit = StreamCredit { outstanding: self.credit.outstanding };
        credit.grant(n);
        self.credit = credit;
    }
}

/// One read of the application, and whether the credit frame that it led to could be queued.
pub struct ReadEvent {
    pub n: u64,
    pub queued: bool,
}

/// The bytes read and not credited yet after a read, if there were `before`.
pub open spec fn pending_step(before: nat, e: ReadEvent) -> nat {
    if e.n > 0 && before + e.n >= CREDIT_BATCH && e.queued {
        0
    } else {
        before + e.n as nat
    }
}

/// The bytes read and not credited yet after `reads`.
pub open spec fn pending_after(reads: Seq<ReadEvent>) -> nat
    decreases reads.len(),
{
    if reads.len() == 0 {
        0
    } else {
        pending_step(pending_after(reads.drop_last()), reads.last())
    }
}

/// The bytes read in `reads`.
pub open spec fn total_read(reads: Seq<ReadEvent>) -> nat
    decreases reads.len(),
{
    if reads.len() == 0 {
        0
    } else {
        total_read(reads.drop_last()) + reads.last().n as nat
    }
}

/// The bytes credited in `reads`.
pub open spec fn total_returned(reads: Seq<ReadEvent>) -> nat
    decreases reads.len(),
{
    if reads.len() == 0 {
        0
    } else {
        let p = pending_after(reads.drop_last());
        let e = reads.last();
        total_returned(reads.drop_last()) + (p + e.n as nat - pending_step(p, e)) as nat
    }
}

/// No byte read is credited twice or lost: what was read is what was credited and what is
/// still to be credited.
pub proof fn law_credit_conserved(reads: Seq<ReadEvent>)
    ensures
        total_read(reads) == total_returned(reads) + pending_after(reads),
    decreases reads.len(),
{
    if reads.len() > 0 {
        law_credit_conserved(reads.drop_last());
    }
}

proof fn lemma_pending_below_batch(reads: Seq<ReadEvent>)
    requires
        forall|i: int| 0 <= i < reads.len() ==> (#[trigger] reads[i]).queued,
    ensures
        pending_after(reads) < CREDIT_BATCH,
    decreases reads.len(),
{
    if reads.len() > 0 {
        let r = reads.drop_last();
        assert forall|i: int| 0 <= i < r.len() implies (#[trigger] r[i]).queued by {
            assert(reads[i].queued);
        }
        lemma_pending_below_batch(r);
        assert(reads[reads.len() - 1].queued);
    }
}

/// A stream does not get stuck: once the receiver has read all that was sent, its credit
/// frames could be queued, and they have arrived, the sender may send again.
pub proof fn law_window_reopens(events: Seq<CreditEvent>, reads: Seq<ReadEvent>)
    requires
        honest(events),
        total_read(reads) == total_sent(events),
        total_granted(events) == total_returned(reads),
        forall|i: int| 0 <= i < reads.len() ==> (#[trigger] reads[i]).queued,
    ensures
        outstanding_after(events) < RECV_WINDOW,
{
    law_outstanding_exact(events);
    law_credit_conserved(reads);
    lemma_pending_below_batch(reads);
}

/// The receiver's account of one stream: what the application has read and the sender has
/// not been credited yet.
#[derive(Debug)]
pub struct CreditReader {
    id: u64,
    pending: u64,
}

/// The frame that credits `amount` bytes of the stream `id`.
pub open spec fn credit_frame(id: u64, amount: u64) -> FrameView {
    FrameView {
        stream_id: id,
        frame_type: FRAME_STREAM_CREDIT,
        body: varint::varint_bytes(amount),
    }
}

/// Credit falls due with a read that brings what is not credited yet to 262144 bytes or more. It
/// then covers all of it, once it is queued; until then nothing of it is forgotten.
pub proof fn law_credit_falls_due(before: nat, e: ReadEvent)
    ensures
        e.queued && e.n > 0 && before + e.n >= 262_144 ==> pending_step(before, e) == 0,
        !e.queued || e.n == 0 || before + e.n < 262_144 ==> pending_step(before, e) - before
            == e.n,
{
}

impl CreditReader {
    pub closed spec fn stream(&self) -> u64 {
        self.id
    }

    /// The bytes read and not credited yet.
    pub closed spec fn pending(&self) -> u64 {
        self.pending
    }

    /// The account of a stream of which nothing has been read.
    pub fn new(id: u64) -> (r: Self)
        ensures
            r.stream() == id,
            r.pending() == 0,
    {
        CreditReader { id, pending: 0 }
    }

    /// The bytes read and not credited yet.
    pub fn uncredited(&self) -> (n: u64)
        ensures
            n == self.pending(),
    {
        self.pending
    }

    /// Records that the application has read `n` bytes. Gives the credit frame to queue, if
    /// it is time for one; `credited` has to be called if it could be queued.
    pub fn on_read(&mut self, n: u64) -> (f: Option<Frame>)
        requires
            old(self).pending() + n <= u64::MAX,
        ensures
            final(self).stream() == old(self).stream(),
            final(self).pending() == old(self).pending() + n,
            final(self).pending() == pending_step(
                old(self).pending() as nat,
                ReadEvent { n, queued: false },
            ),
            n > 0 && old(self).pending() + n >= CREDIT_BATCH ==> (f matches Some(fr) && fr@
                == credit_frame(old(self).stream(), (old(self).pending() + n) as u64)),
            !(n > 0 && old(self).pending() + n >= CREDIT_BATCH) ==> f is None,
            f is Some <==> n > 0 && old(self).pending() + n >= 262_144,
            f matches Some(fr) ==> fr@.stream_id == old(self).stream() && fr@.frame_type == 0x0b
                && fr@.body == varint::varint_bytes(final(self).pending()),
    {
        if n == 0 {
            return None;
        }
        self.pending = self.pending + n;
        if self.pending >= CREDIT_BATCH {
            let mut body: Vec<u8> = Vec::new();
            varint::encode_varint(&mut body, self.pending);
            assert(body@ =~= varint::varint_bytes(self.pending));
            Some(Frame::new(self.id, FRAME_STREAM_CREDIT, body))
        } else {
            None
        }
    }

    /// Records that the credit frame of the last read was queued.
    pub fn credited(&mut self)
        ensures
            final(self).stream() == old(self).stream(),
            final(self).pending() == 0,
    {
        self.pending = 0;
    }
}

} // verus!
