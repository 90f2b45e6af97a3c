//! Scrambling and authentication of messages under a pre-shared key.
//!
//! A message is sent as a random salt, the payload masked with a key stream made from key and
//! salt, and a keyed tag over the masked payload.

use std::collections::VecDeque;

use vstd::prelude::*;
use vstd::string::*;

use crate::bytes;
use crate::error::{Error, ErrorView, Result};
use crate::message;
use crate::message::TAG_LEN;
use crate::outside;

verus! {

pub const SALT_LEN: usize = 8;

/// How many of the last accepted messages a `ReplayFilter` remembers.
pub const REPLAY_WINDOW: usize = 1024;

/// `body` with the key stream of `key` and `salt` laid over it.
pub open spec fn mask(key: Seq<u8>, salt: Seq<u8>, body: Seq<u8>) -> Seq<u8> {
    let stream = outside::blake3_hash(key + salt);
    Seq::new(body.len(), |i: int| body[i] ^ stream[i % 32])
}

/// The tag over a masked payload.
pub open spec fn tag_of(key: Seq<u8>, body: Seq<u8>) -> Seq<u8> {
    let h = outside::blake3_keyed_hash(outside::blake3_hash(key), body);
    Seq::new(16, |i: int| h[i])
}

/// The message that carries `payload` under `key` with the given salt.
pub open spec fn sealed(key: Seq<u8>, salt: Seq<u8>, payload: Seq<u8>) -> Seq<u8> {
    salt + mask(key, salt, payload) + tag_of(key, mask(key, salt, payload))
}

/// The payload of a message, if it is long enough and its tag is right.
pub open spec fn opened(key: Seq<u8>, msg: Seq<u8>) -> Option<Seq<u8>> {
    let n = msg.len() as int;
    if n < 24 {
        None
    } else {
        let body = msg.subrange(8, n - 16);
        if msg.subrange(n - 16, n) == tag_of(key, body) {
            Some(mask(key, msg.take(8), body))
        } else {
            None
        }
    }
}

proof fn lemma_xor_twice(a: u8, b: u8)
    ensures
        (a ^ b) ^ b == a,
{
    assert((a ^ b) ^ b == a) by (bit_vector);
}

/// Masking twice with the same salt changes nothing.
pub proof fn law_mask_involution(key: Seq<u8>, salt: Seq<u8>, body: Seq<u8>)
    ensures
        mask(key, salt, mask(key, salt, body)) == body,
{
    let stream = outside::blake3_hash(key + salt);
    assert forall|i: int| 0 <= i < body.len() implies mask(key, salt, mask(key, salt, body))[i]
        == body[i] by {
        lemma_xor_twice(body[i], stream[i % 32]);
    }
    assert(mask(key, salt, mask(key, salt, body)) =~= body);
}

/// Whoever has the key gets back exactly the payload that was sent, whatever the salt.
pub proof fn law_opened_sealed(key: Seq<u8>, salt: Seq<u8>, payload: Seq<u8>)
    requires
        salt.len() == 8,
    ensures
        opened(key, sealed(key, salt, payload)) == Some(payload),
{
    let body = mask(key, salt, payload);
    let msg = sealed(key, salt, payload);
    let n = msg.len() as int;
    assert(msg.take(8) =~= salt);
    assert(msg.subrange(8, n - 16) =~= body);
    assert(msg.subrange(n - 16, n) =~= tag_of(key, body));
    law_mask_involution(key, salt, payload);
}

/// The layer adds the salt and the tag and nothing else.
pub proof fn law_sealed_len(key: Seq<u8>, salt: Seq<u8>, payload: Seq<u8>)
    requires
        salt.len() == 8,
    ensures
        sealed(key, salt, payload).len() == payload.len() + 8 + 16,
{
}

/// A message with any other tag than the one that belongs to its masked payload is refused.
pub proof fn law_tampered_refused(key: Seq<u8>, salt: Seq<u8>, body: Seq<u8>, tag: Seq<u8>)
    requires
        salt.len() == 8,
        tag.len() == 16,
        tag != tag_of(key, body),
    ensures
        opened(key, salt + body + tag) is None,
{
    let msg = salt + body + tag;
    let n = msg.len() as int;
    assert(msg.subrange(8, n - 16) =~= body);
    assert(msg.subrange(n - 16, n) =~= tag);
}

/// Messages accepted lately, by their salts: a message carries a fresh salt, so one that
/// comes again is a replay.
pub struct ReplayFilter {
    seen: VecDeque<u64>,
}

impl View for ReplayFilter {
    type V = Seq<u64>;

    /// The salts remembered, oldest first.
    closed spec fn view(&self) -> Seq<u64> {
        self.seen@
    }
}

/// The salts remembered once `x` has been added: at most as many as the window holds, the
/// oldest leaving first.
pub open spec fn remembered(seen: Seq<u64>, x: u64) -> Seq<u64> {
    if seen.len() >= REPLAY_WINDOW {
        seen.skip(seen.len() - REPLAY_WINDOW + 1).push(x)
    } else {
        seen.push(x)
    }
}

/// The salt of a message as a number.
pub open spec fn salt_of(msg: Seq<u8>) -> u64 {
    bytes::be_nat(msg.take(8)) as u64
}

impl ReplayFilter {
    /// A filter that has seen nothing.
    pub fn new() -> (f: Self)
        ensures
            f@ == Seq::<u64>::empty(),
    {
        ReplayFilter { seen: VecDeque::new() }
    }

    /// Whether the salt is among those remembered.
    pub fn contains(&self, salt: u64) -> (r: bool)
        ensures
            r == self@.contains(salt),
    {
        let mut i: usize = 0;
        while i < self.seen.len()
            invariant
                i <= self.seen@.len(),
                forall|j: int| 0 <= j < i ==> self.seen@[j] != salt,
            decreases self.seen@.len() - i,
        {
            if self.seen[i] == salt {
                assert(self@[i as int] == salt);
                return true;
            }
            i = i + 1;
        }
        false
    }

    /// Adds a salt; the oldest leaves if the window is full.
    pub fn remember(&mut self, salt: u64)
        ensures
            final(self)@ == remembered(old(self)@, salt),
            final(self)@.len() <= REPLAY_WINDOW,
    {
        let ghost before = self.seen@;
        while self.seen.len() >= REPLAY_WINDOW
            invariant
                self.seen@.len() <= before.len(),
                self.seen@ == before.skip(before.len() - self.seen@.len()),
                before.len() >= REPLAY_WINDOW ==> self.seen@.len() >= REPLAY_WINDOW - 1,
                before.len() < REPLAY_WINDOW ==> self.seen@ == before,
            decreases self.seen@.len(),
        {
            let _ = self.seen.pop_front();
            assert(self.seen@ =~= before.skip(before.len() - self.seen@.len()));
        }
        assert(before.len() < REPLAY_WINDOW ==> self.seen@ =~= before);
        self.seen.push_back(salt);
    }
}

/// What became of a received message.
#[derive(Debug, PartialEq, Eq)]
pub enum DecryptOutcome {
    /// The payload of a genuine message.
    Payload(Vec<u8>),
    /// A genuine message that has been received before.
    Replay,
    /// Too short, or the tag is wrong.
    Invalid,
}

/// A `DecryptOutcome` with its payload as a sequence.
#[verifier::ext_equal]
pub enum OutcomeView {
    Payload(Seq<u8>),
    Replay,
    Invalid,
}

impl View for DecryptOutcome {
    type V = OutcomeView;

    open spec fn view(&self) -> OutcomeView {
        match self {
            DecryptOutcome::Payload(v) => OutcomeView::Payload(v@),
            DecryptOutcome::Replay => OutcomeView::Replay,
            DecryptOutcome::Invalid => OutcomeView::Invalid,
        }
    }
}

/// What becomes of a message when `seen` are the salts remembered.
pub open spec fn outcome(seen: Seq<u64>, key: Seq<u8>, msg: Seq<u8>) -> OutcomeView {
    match opened(key, msg) {
        None => OutcomeView::Invalid,
        Some(payload) => if seen.contains(salt_of(msg)) {
            OutcomeView::Replay
        } else {
            OutcomeView::Payload(payload)
        },
    }
}

/// The salts remembered after a message: only an accepted one is added.
pub open spec fn seen_after(seen: Seq<u64>, key: Seq<u8>, msg: Seq<u8>) -> Seq<u64> {
    if outcome(seen, key, msg) is Payload {
        remembered(seen, salt_of(msg))
    } else {
        seen
    }
}

/// The salts remembered after a row of messages.
pub open spec fn seen_after_all(seen: Seq<u64>, key: Seq<u8>, msgs: Seq<Seq<u8>>) -> Seq<u64>
    decreases msgs.len(),
{
    if msgs.len() == 0 {
        seen
    } else {
        seen_after(seen_after_all(seen, key, msgs.drop_last()), key, msgs.last())
    }
}

/// Whether `x` is among the last `d + 1` of `s`.
spec fn near_end(s: Seq<u64>, x: u64, d: int) -> bool {
    exists|i: int| 0 <= i < s.len() && s.len() - 1 - i <= d && #[trigger] s[i] == x
}

proof fn lemma_near_end_remembered(s: Seq<u64>, x: u64, y: u64, d: int)
    requires
        near_end(s, x, d),
        0 <= d < REPLAY_WINDOW - 1,
    ensures
        near_end(remembered(s, y), x, d + 1),
{
    let i = choose|i: int| 0 <= i < s.len() && s.len() - 1 - i <= d && #[trigger] s[i] == x;
    let t = remembered(s, y);
    let drop = if s.len() >= REPLAY_WINDOW {
        s.len() - REPLAY_WINDOW + 1
    } else {
        0
    };
    assert(t[i - drop] == x);
}

proof fn lemma_replay_window(seen: Seq<u64>, key: Seq<u8>, x: u64, others: Seq<Seq<u8>>, d: int)
    requires
        near_end(seen, x, d),
        0 <= d,
        d + others.len() < REPLAY_WINDOW,
    ensures
        near_end(seen_after_all(seen, key, others), x, d + others.len()),
    decreases others.len(),
{
    if others.len() > 0 {
        lemma_replay_window(seen, key, x, others.drop_last(), d);
        let s = seen_after_all(seen, key, others.drop_last());
        let m = others.last();
        let e = d + others.len() - 1;
        if outcome(s, key, m) is Payload {
            lemma_near_end_remembered(s, x, salt_of(m), e);
        } else {
            let i = choose|i: int|
                0 <= i < s.len() && s.len() - 1 - i <= e && #[trigger] s[i] == x;
            assert(s[i] == x);
        }
    }
}

/// A message that was accepted is recognised as a replay when it comes again, as long as
/// fewer than a window of other messages have come between.
pub proof fn law_replay_dropped(
    seen: Seq<u64>,
    key: Seq<u8>,
    msg: Seq<u8>,
    others: Seq<Seq<u8>>,
)
    requires
        outcome(seen, key, msg) is Payload,
        others.len() < 1024,
    ensures
        outcome(
            seen_after_all(seen_after(seen, key, msg), key, others),
            key,
            msg,
        ) == OutcomeView::Replay,
{
    let x = salt_of(msg);
    let s = seen_after(seen, key, msg);
    assert(s.last() == x);
    assert(s[s.len() - 1] == x);
    assert(near_end(s, x, 0));
    lemma_replay_window(s, key, x, others, 0);
    let t = seen_after_all(s, key, others);
    let i = choose|i: int|
        0 <= i < t.len() && t.len() - 1 - i <= others.len() && #[trigger] t[i] == x;
    assert(t.contains(t[i]));
}

/// A genuine message with a salt that is not remembered is accepted with its payload.
pub proof fn law_fresh_accepted(seen: Seq<u64>, key: Seq<u8>, salt: Seq<u8>, payload: Seq<u8>)
    requires
        salt.len() == 8,
        !seen.contains(bytes::be_nat(salt) as u64),
    ensures
        outcome(seen, key, sealed(key, salt, payload)) == OutcomeView::Payload(payload),
{
    law_opened_sealed(key, salt, payload);
    assert(sealed(key, salt, payload).take(8) =~= salt);
}

/// What became of a message is seen as it is.
pub proof fn law_outcomes_are_seen_as_they_are(o: DecryptOutcome)
    ensures
        o matches DecryptOutcome::Payload(v) ==> o@ == OutcomeView::Payload(v@),
        o is Replay <==> o@ is Replay,
        o is Invalid <==> o@ is Invalid,
{
}

/// A payload is masked byte by byte with the hash of key and salt, over and over, and the tag is
/// the first half of the masked payload's hash under the hash of the key.
pub proof fn law_mask_and_tag(key: Seq<u8>, salt: Seq<u8>, body: Seq<u8>, i: int)
    requires
        0 <= i < body.len(),
    ensures
        mask(key, salt, body).len() == body.len(),
        mask(key, salt, body)[i] ^ body[i] == outside::blake3_hash(key + salt)[i % 32],
        tag_of(key, body).len() == 16,
        forall|j: int|
            0 <= j < 16 ==> #[trigger] tag_of(key, body)[j] == outside::blake3_keyed_hash(
                outside::blake3_hash(key),
                body,
            )[j],
{
    let a = body[i];
    let b = outside::blake3_hash(key + salt)[i % 32];
    assert((a ^ b) ^ a == b) by (bit_vector);
}

/// A sealed message is the salt, the masked payload and the tag over that; and what is opened is a
/// message of that form under the same key, with nothing around it, and nothing else is.
pub proof fn law_opened_is_what_was_sealed(
    key: Seq<u8>,
    salt: Seq<u8>,
    payload: Seq<u8>,
    msg: Seq<u8>,
)
    requires
        salt.len() == 8,
    ensures
        sealed(key, salt, payload).take(8) == salt,
        sealed(key, salt, payload).skip(8) == mask(key, salt, payload) + tag_of(
            key,
            mask(key, salt, payload),
        ),
        opened(key, msg) matches Some(p) ==> msg.len() >= 24 && msg == sealed(key, msg.take(8), p),
        msg.len() < 24 ==> opened(key, msg) is None,
{
    let w = sealed(key, salt, payload);
    assert(w.take(8) =~= salt);
    assert(w.skip(8) =~= mask(key, salt, payload) + tag_of(key, mask(key, salt, payload)));
    if let Some(p) = opened(key, msg) {
        let n = msg.len() as int;
        let body = msg.subrange(8, n - 16);
        law_mask_involution(key, msg.take(8), body);
        assert(msg =~= msg.take(8) + body + msg.subrange(n - 16, n));
    }
}

/// A message is invalid if it cannot be opened, a replay if its salt is remembered, and else its
/// payload is taken; the salt is the number that its first eight bytes make.
pub proof fn law_outcome(seen: Seq<u64>, key: Seq<u8>, msg: Seq<u8>)
    ensures
        outcome(seen, key, msg) is Invalid <==> opened(key, msg) is None,
        outcome(seen, key, msg) is Replay <==> opened(key, msg) is Some && seen.contains(
            bytes::be_nat(msg.take(8)) as u64,
        ),
        outcome(seen, key, msg) matches OutcomeView::Payload(p) ==> opened(key, msg) == Some(p),
{
}

/// What is remembered after a message: nothing new unless its payload was taken, and then its
/// salt, last, and before it what was remembered, of which at most the oldest have left, and only
/// once 1024 are remembered.
pub proof fn law_memory_of_salts(seen: Seq<u64>, key: Seq<u8>, msg: Seq<u8>)
    ensures
        ({
            let after = seen_after(seen, key, msg);
            let gone = seen.len() + 1 - after.len();
            &&& !(outcome(seen, key, msg) is Payload) ==> after == seen
            &&& outcome(seen, key, msg) is Payload ==> 0 <= gone <= seen.len() && after
                == seen.skip(gone).push(bytes::be_nat(msg.take(8)) as u64) && after.len() <= 1024
                && (gone > 0 ==> after.len() == 1024)
        }),
{
    if outcome(seen, key, msg) is Payload && seen.len() < REPLAY_WINDOW {
        assert(seen.skip(0) =~= seen);
    }
}

/// Seals and opens messages under one key.
pub struct Obfuscator {
    key: Vec<u8>,
    key32: [u8; 32],
}

impl View for Obfuscator {
    type V = Seq<u8>;

    /// The pre-shared key.
    closed spec fn view(&self) -> Seq<u8> {
        self.key@
    }
}

impl Clone for Obfuscator {
    fn clone(&self) -> (ob: Obfuscator)
        ensures
            ob@ == self@,
    {
        proof {
            use_type_invariant(self);
        }
        Obfuscator { key: bytes::copy_vec(&self.key), key32: self.key32 }
    }
}

impl Obfuscator {
    #[verifier::type_invariant]
    spec fn keys_agree(self) -> bool {
        self.key32@ == outside::blake3_hash(self.key@)
    }

    /// An obfuscator under `key`.
    pub fn new(key: &[u8]) -> (ob: Self)
        ensures
            ob@ == key@,
    {
        let key32: [u8; 32] = outside::hash(key);
        Obfuscator { key: bytes::copy_slice(key), key32 }
    }

    /// Replaces the payload in `buf` by the message that carries it, with the given salt.
    pub fn encrypt_with_salt(&self, salt: &[u8; 8], buf: &mut Vec<u8>)
        ensures
            final(buf)@ == sealed(self@, salt@, old(buf)@),
    {
        let body = self.masked(buf.as_slice(), salt.as_slice());
        let tag = self.tag(body.as_slice());
        let mut out = bytes::copy_slice(salt.as_slice());
        bytes::put_slice(&mut out, body.as_slice());
        bytes::put_slice(&mut out, tag.as_slice());
        *buf = out;
    }

    /// Replaces the payload in `buf` by the message that carries it, with a salt drawn from the
    /// system's random source. Fails, and leaves `buf` alone, only where that has no bytes.
    pub fn encrypt(&self, buf: &mut Vec<u8>) -> (r: Result<()>)
        ensures
            exists|drawn: Option<Vec<u8>>| #[trigger]
                outside::may_draw(SALT_LEN, drawn) && (match drawn {
                    Some(salt) => r is Ok && final(buf)@ == sealed(self@, salt@, old(buf)@),
                    None => r is Err,
                }),
            r is Ok ==> final(buf)@ == sealed(self@, final(buf)@.take(8), old(buf)@),
            r is Ok ==> final(buf)@.len() == old(buf)@.len() + SALT_LEN + TAG_LEN,
            r matches Err(e) ==> final(buf)@ == old(buf)@ && e@ == ErrorView::Message(
                "CSPRNG unavailable"@,
            ),
    {
        let drawn = outside::draw(SALT_LEN);
        assert(outside::may_draw(SALT_LEN, drawn));
        match &drawn {
            Some(v) => {
                let salt: [u8; 8] = [v[0], v[1], v[2], v[3], v[4], v[5], v[6], v[7]];
                let ghost payload = buf@;
                self.encrypt_with_salt(&salt, buf);
                assert(salt@ =~= v@);
                assert(sealed(self@, salt@, payload).take(8) =~= salt@);
                Ok(())
            },
            None => Err(Error::Message("CSPRNG unavailable".to_owned())),
        }
    }

    /// The payload of a message, if it is long enough and its tag is right.
    pub fn decrypt(&self, buf: &[u8]) -> (r: Option<Vec<u8>>)
        ensures
            match opened(self@, buf@) {
                Some(p) => r matches Some(v) && v@ == p,
                None => r is None,
            },
    {
        let n: usize = buf.len();
        if n < SALT_LEN + TAG_LEN {
            return None;
        }
        let split: usize = n - TAG_LEN;
        let body = &buf[SALT_LEN..split];
        let tag = self.tag(body);
        if !message::ct_eq(tag.as_slice(), &buf[split..n]) {
            return None;
        }
        assert(buf@.subrange(0, 8) =~= buf@.take(8));
        Some(self.masked(body, &buf[0..SALT_LEN]))
    }

    /// Opens a message unless it has been accepted before; an accepted one is remembered in
    /// `filter`.
    pub fn decrypt_outcome(&self, filter: &mut ReplayFilter, buf: &[u8]) -> (r: DecryptOutcome)
        ensures
            r@ == outcome(old(filter)@, self@, buf@),
            final(filter)@ == seen_after(old(filter)@, self@, buf@),
    {
        match self.decrypt(buf) {
            Some(payload) => {
                assert(buf@.subrange(0, 8) =~= buf@.take(8));
                let salt: u64 = bytes::get_be(&buf[0..SALT_LEN]);
                if filter.contains(salt) {
                    DecryptOutcome::Replay
                } else {
                    filter.remember(salt);
                    DecryptOutcome::Payload(payload)
                }
            },
            None => DecryptOutcome::Invalid,
        }
    }

    fn tag(&self, body: &[u8]) -> (t: Vec<u8>)
        ensures
            t@ == tag_of(self@, body@),
    {
        proof {
            use_type_invariant(self);
        }
        let h: [u8; 32] = outside::keyed_hash(&self.key32, body);
        let t = bytes::copy_slice(vstd::slice::slice_subrange(h.as_slice(), 0, TAG_LEN));
        assert(t@ =~= tag_of(self@, body@));
        t
    }

    fn masked(&self, body: &[u8], salt: &[u8]) -> (out: Vec<u8>)
        ensures
            out@ == mask(self@, salt@, body@),
    {
        let mut seed = bytes::copy_vec(&self.key);
        bytes::put_slice(&mut seed, salt);
        let stream: [u8; 32] = outside::hash(seed.as_slice());
        let mut out: Vec<u8> = Vec::new();
        let mut i: usize = 0;
        while i < body.len()
            invariant
                i <= body@.len(),
                out@.len() == i,
                stream@ == outside::blake3_hash(self@ + salt@),
                forall|j: int| 0 <= j < i ==> out@[j] == mask(self@, salt@, body@)[j],
            decreases body@.len() - i,
        {
            out.push(body[i] ^ stream[i % 32]);
            i = i + 1;
        }
        assert(out@ =~= mask(self@, salt@, body@));
        out
    }
}

} // verus!
