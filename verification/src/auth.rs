//! The server's judgement of an authentication, and its memory of the nonces that were used.

use std::collections::VecDeque;

use vstd::prelude::*;
use vstd::string::*;
use vstd::utf8::*;

use crate::bytes;
use crate::message;
use crate::message::{
    AuthRequest, AuthRequestView, AuthResponse, AuthResponseView, ERR_BAD_CREDENTIALS,
    ERR_PROTOCOL, ERR_UNSUPPORTED, FEATURE_UDP, PROTOCOL_VERSION, STATUS_OK,
};
use crate::metrics::Metrics;
use crate::text;
use crate::varint;

verus! {

/// How many nonces the server remembers.
pub const NONCE_CACHE_LEN: usize = 8192;

/// How long the server remembers a nonce, in nanoseconds.
pub const NONCE_TTL_NANOS: u64 = 600_000_000_000;

/// The shortest nonce that a client may use.
pub const MIN_NONCE_LEN: usize = 8;

/// A nonce and when it was used.
pub type NonceEntry = (Vec<u8>, u64);

/// Whether a nonce used at `used` is forgotten at `now`.
pub open spec fn expired(used: u64, now: u64) -> bool {
    now > used && now - used > NONCE_TTL_NANOS
}

/// Whether `nonce` was used and is not forgotten yet.
pub open spec fn nonce_seen(cache: Seq<(Seq<u8>, u64)>, nonce: Seq<u8>, now: u64) -> bool {
    exists|i: int|
        0 <= i < cache.len() && (#[trigger] cache[i]).0 == nonce && !expired(cache[i].1, now)
}

/// The cache without the forgotten entries at its old end.
pub open spec fn purged(cache: Seq<(Seq<u8>, u64)>, now: u64) -> Seq<(Seq<u8>, u64)>
    decreases cache.len(),
{
    if cache.len() > 0 && expired(cache[0].1, now) {
        purged(cache.skip(1), now)
    } else {
        cache
    }
}

/// The cache after `nonce` was used at `now`: forgotten entries are gone, and if there is no
/// room the oldest leaves.
pub open spec fn nonce_remembered(
    cache: Seq<(Seq<u8>, u64)>,
    nonce: Seq<u8>,
    now: u64,
) -> Seq<(Seq<u8>, u64)> {
    let p = purged(cache, now);
    if p.len() >= NONCE_CACHE_LEN {
        p.skip(p.len() - NONCE_CACHE_LEN + 1).push((nonce, now))
    } else {
        p.push((nonce, now))
    }
}

/// The cache after the request `req` came in at `now`, whatever it was answered: its nonce is
/// remembered from then on, unless it is too short to count or remembered already.
pub open spec fn cache_after(
    cache: Seq<(Seq<u8>, u64)>,
    req: AuthRequestView,
    now: u64,
) -> Seq<(Seq<u8>, u64)> {
    if req.client_nonce.len() < MIN_NONCE_LEN || nonce_seen(cache, req.client_nonce, now) {
        cache
    } else {
        nonce_remembered(cache, req.client_nonce, now)
    }
}

/// The nonces used lately, oldest first.
pub struct NonceCache {
    entries: VecDeque<NonceEntry>,
}

/// The entries of a cache as sequences.
pub open spec fn entries_view(s: Seq<NonceEntry>) -> Seq<(Seq<u8>, u64)> {
    Seq::new(s.len(), |i: int| (s[i].0@, s[i].1))
}

impl View for NonceCache {
    type V = Seq<(Seq<u8>, u64)>;

    closed spec fn view(&self) -> Seq<(Seq<u8>, u64)> {
        entries_view(self.entries@)
    }
}

impl NonceCache {
    /// A cache without entries.
    pub fn new() -> (c: Self)
        ensures
            c@ == Seq::<(Seq<u8>, u64)>::empty(),
    {
        let c = NonceCache { entries: VecDeque::new() };
        assert(c@ =~= Seq::empty());
        c
    }

    /// Whether `nonce` was used and is not forgotten yet.
    pub fn seen(&self, nonce: &[u8], now: u64) -> (r: bool)
        ensures
            r == nonce_seen(self@, nonce@, now),
    {
        let mut i: usize = 0;
        while i < self.entries.len()
            invariant
                i <= self.entries@.len(),
                forall|j: int|
                    0 <= j < i ==> !((#[trigger] self@[j]).0 == nonce@ && !expired(self@[j].1, now)),
            decreases self.entries@.len() - i,
        {
            let e = &self.entries[i];
            assert(self@[i as int] == (e.0@, e.1));
            if message::ct_eq(e.0.as_slice(), nonce) && !(now > e.1 && now - e.1
                > NONCE_TTL_NANOS) {
                return true;
            }
            i = i + 1;
        }
        false
    }

    /// Remembers that `nonce` was used at `now`.
    pub fn remember(&mut self, nonce: &[u8], now: u64)
        ensures
            final(self)@ == nonce_remembered(old(self)@, nonce@, now),
    {
        let ghost before = self@;
        while self.entries.len() > 0 && (now > self.entries[0].1 && now - self.entries[0].1
            > NONCE_TTL_NANOS)
            invariant
                purged(self@, now) == purged(before, now),
            decreases self.entries@.len(),
        {
            let ghost mid = self@;
            let _ = self.entries.pop_front();
            assert(self@ =~= mid.skip(1));
        }
        assert(self@ == purged(before, now)) by {
            assert(self.entries@.len() > 0 ==> self@[0] == (
                self.entries@[0].0@,
                self.entries@[0].1,
            ));
        }
        let ghost p = self@;
        while self.entries.len() >= NONCE_CACHE_LEN
            invariant
                self@.len() <= p.len(),
                self@ == p.skip(p.len() - self@.len()),
                p.len() >= NONCE_CACHE_LEN ==> self@.len() >= NONCE_CACHE_LEN - 1,
                p.len() < NONCE_CACHE_LEN ==> self@ == p,
            decreases self.entries@.len(),
        {
            let ghost mid = self@;
            let _ = self.entries.pop_front();
            assert(self@ =~= mid.skip(1));
            assert(self@ =~= p.skip(p.len() - self@.len()));
        }
        assert(p.len() < NONCE_CACHE_LEN ==> self@ =~= p);
        let ghost last = self@;
        self.entries.push_back((bytes::copy_slice(nonce), now));
        assert(self@ =~= last.push((nonce@, now)));
    }
}

/// Whether `nonce`, used at `used`, is among the last `d + 1` entries.
spec fn recent(cache: Seq<(Seq<u8>, u64)>, nonce: Seq<u8>, used: u64, d: int) -> bool {
    exists|i: int|
        0 <= i < cache.len() && cache.len() - 1 - i <= d && #[trigger] cache[i] == (nonce, used)
}

proof fn lemma_purged_recent(
    cache: Seq<(Seq<u8>, u64)>,
    nonce: Seq<u8>,
    used: u64,
    d: int,
    now: u64,
)
    requires
        recent(cache, nonce, used, d),
        !expired(used, now),
    ensures
        recent(purged(cache, now), nonce, used, d),
    decreases cache.len(),
{
    if cache.len() > 0 && expired(cache[0].1, now) {
        let i = choose|i: int|
            0 <= i < cache.len() && cache.len() - 1 - i <= d && #[trigger] cache[i] == (
                nonce,
                used,
            );
        assert(i > 0);
        assert(cache.skip(1)[i - 1] == (nonce, used));
        lemma_purged_recent(cache.skip(1), nonce, used, d, now);
    }
}

proof fn lemma_remembered_recent(
    cache: Seq<(Seq<u8>, u64)>,
    nonce: Seq<u8>,
    used: u64,
    d: int,
    other: Seq<u8>,
    now: u64,
)
    requires
        recent(cache, nonce, used, d),
        !expired(used, now),
        0 <= d < NONCE_CACHE_LEN - 1,
    ensures
        recent(nonce_remembered(cache, other, now), nonce, used, d + 1),
{
    lemma_purged_recent(cache, nonce, used, d, now);
    let p = purged(cache, now);
    let i = choose|i: int|
        0 <= i < p.len() && p.len() - 1 - i <= d && #[trigger] p[i] == (nonce, used);
    let drop = if p.len() >= NONCE_CACHE_LEN {
        p.len() - NONCE_CACHE_LEN + 1
    } else {
        0
    };
    assert(nonce_remembered(cache, other, now)[i - drop] == (nonce, used));
}

/// The cache after a row of requests, each at its time.
pub open spec fn cache_after_all(
    cache: Seq<(Seq<u8>, u64)>,
    reqs: Seq<(AuthRequestView, u64)>,
) -> Seq<(Seq<u8>, u64)>
    decreases reqs.len(),
{
    if reqs.len() == 0 {
        cache
    } else {
        cache_after(cache_after_all(cache, reqs.drop_last()), reqs.last().0, reqs.last().1)
    }
}

proof fn lemma_cache_after_all_recent(
    cache: Seq<(Seq<u8>, u64)>,
    nonce: Seq<u8>,
    used: u64,
    others: Seq<(AuthRequestView, u64)>,
    now: u64,
)
    requires
        recent(cache, nonce, used, 0),
        others.len() < NONCE_CACHE_LEN,
        !expired(used, now),
        forall|i: int| 0 <= i < others.len() ==> (#[trigger] others[i]).1 <= now,
    ensures
        recent(cache_after_all(cache, others), nonce, used, others.len() as int),
    decreases others.len(),
{
    if others.len() > 0 {
        let front = others.drop_last();
        assert forall|i: int| 0 <= i < front.len() implies (#[trigger] front[i]).1 <= now by {
            assert(others[i].1 <= now);
        }
        lemma_cache_after_all_recent(cache, nonce, used, front, now);
        let last = others[others.len() - 1];
        let c = cache_after_all(cache, front);
        let d = front.len() as int;
        assert(last.1 <= now);
        lemma_remembered_recent(c, nonce, used, d, last.0.client_nonce, last.1);
        let i = choose|i: int|
            0 <= i < c.len() && c.len() - 1 - i <= d && #[trigger] c[i] == (nonce, used);
        assert(c[i] == (nonce, used));
        assert(recent(c, nonce, used, d + 1));
    }
}

/// A nonce that came in is recognised when it comes again within its lifetime, whatever its
/// request was answered, as long as fewer other requests came in since than the cache holds.
pub proof fn law_nonce_reuse_recognised(
    cache: Seq<(Seq<u8>, u64)>,
    first: AuthRequestView,
    used: u64,
    others: Seq<(AuthRequestView, u64)>,
    now: u64,
)
    requires
        first.client_nonce.len() >= 8,
        !nonce_seen(cache, first.client_nonce, used),
        now - used <= 600_000_000_000,
        others.len() < 8192,
        forall|i: int| 0 <= i < others.len() ==> (#[trigger] others[i]).1 <= now,
    ensures
        nonce_seen(
            cache_after_all(cache_after(cache, first, used), others),
            first.client_nonce,
            now,
        ),
{
    let nonce = first.client_nonce;
    let c0 = cache_after(cache, first, used);
    assert(c0[c0.len() - 1] == (nonce, used));
    assert(recent(c0, nonce, used, 0));
    lemma_cache_after_all_recent(c0, nonce, used, others, now);
    let c = cache_after_all(c0, others);
    let i = choose|i: int|
        0 <= i < c.len() && c.len() - 1 - i <= others.len() && #[trigger] c[i] == (nonce, used);
    assert(c[i].0 == nonce);
}

/// A nonce is forgotten once its lifetime is over: it may be used again.
pub proof fn law_nonce_forgotten(cache: Seq<(Seq<u8>, u64)>, nonce: Seq<u8>, now: u64)
    requires
        forall|i: int|
            0 <= i < cache.len() && (#[trigger] cache[i]).0 == nonce ==> expired(cache[i].1, now),
    ensures
        !nonce_seen(cache, nonce, now),
{
}

/// The cache never holds more than its limit once a nonce has been remembered.
pub proof fn law_nonce_cache_bounded(cache: Seq<(Seq<u8>, u64)>, nonce: Seq<u8>, now: u64)
    ensures
        nonce_remembered(cache, nonce, now).len() <= NONCE_CACHE_LEN,
{
}

/// The server's answer to `req`, if `cache` holds the nonces used so far.
pub open spec fn judge(
    password: Seq<u8>,
    cc_rx: u64,
    cache: Seq<(Seq<u8>, u64)>,
    req: AuthRequestView,
    now: u64,
) -> AuthResponseView {
    if req.version != PROTOCOL_VERSION {
        AuthResponseView::rejected(ERR_UNSUPPORTED, "unsupported protocol version"@)
    } else if req.client_nonce.len() < MIN_NONCE_LEN {
        AuthResponseView::rejected(ERR_PROTOCOL, "nonce too short"@)
    } else if nonce_seen(cache, req.client_nonce, now) {
        AuthResponseView::rejected(ERR_PROTOCOL, "nonce replay"@)
    } else if req.auth_proof != message::auth_proof_spec(password, req.client_nonce) {
        AuthResponseView::rejected(ERR_BAD_CREDENTIALS, "invalid credentials"@)
    } else {
        AuthResponseView::accepted(cc_rx, FEATURE_UDP)
    }
}

/// Every answer can be sent, if the announced rate can.
pub proof fn lemma_judge_fits(
    password: Seq<u8>,
    cc_rx: u64,
    cache: Seq<(Seq<u8>, u64)>,
    req: AuthRequestView,
    now: u64,
)
    requires
        cc_rx < varint::varint_limit(),
    ensures
        judge(password, cc_rx, cache, req, now).fits(),
{
    reveal_strlit("unsupported protocol version");
    reveal_strlit("nonce too short");
    reveal_strlit("nonce replay");
    reveal_strlit("invalid credentials");
    text::lemma_utf8_len("unsupported protocol version"@);
    text::lemma_utf8_len("nonce too short"@);
    text::lemma_utf8_len("nonce replay"@);
    text::lemma_utf8_len("invalid credentials"@);
}

/// A client that knows the password and uses a fresh nonce is admitted.
pub proof fn law_honest_client_admitted(
    password: Seq<u8>,
    cc_rx: u64,
    cache: Seq<(Seq<u8>, u64)>,
    nonce: Seq<u8>,
    client_cc_rx: u64,
    features: u8,
    now: u64,
)
    requires
        nonce.len() >= 8,
        !nonce_seen(cache, nonce, now),
    ensures
        judge(
            password,
            cc_rx,
            cache,
            message::password_request(password, nonce, client_cc_rx, features),
            now,
        ) == AuthResponseView::accepted(cc_rx, 0x01),
{
}

/// A nonce counts as used for ten minutes from each time that it came in, and at no other time.
pub proof fn law_nonce_counts_for_ten_minutes(
    cache: Seq<(Seq<u8>, u64)>,
    nonce: Seq<u8>,
    now: u64,
)
    ensures
        nonce_seen(cache, nonce, now) <==> exists|i: int|
            0 <= i < cache.len() && (#[trigger] cache[i]).0 == nonce && now - cache[i].1
                <= 600_000_000_000,
{
    if nonce_seen(cache, nonce, now) {
        let i = choose|i: int|
            0 <= i < cache.len() && (#[trigger] cache[i]).0 == nonce && !expired(cache[i].1, now);
        assert(cache[i].0 == nonce && now - cache[i].1 <= 600_000_000_000);
    }
    if exists|i: int|
        0 <= i < cache.len() && (#[trigger] cache[i]).0 == nonce && now - cache[i].1
            <= 600_000_000_000 {
        let i = choose|i: int|
            0 <= i < cache.len() && (#[trigger] cache[i]).0 == nonce && now - cache[i].1
                <= 600_000_000_000;
        assert(cache[i].0 == nonce && !expired(cache[i].1, now));
    }
}

/// A request of version one with a fresh nonce of at least eight bytes is admitted exactly if it
/// carries the proof for the server's password, whatever else it says; the answer then tells the
/// server's rate and that packets are carried. Every other answer names the first thing that is
/// wrong: the version, a short nonce, a used one, the proof.
pub proof fn law_judgement(
    password: Seq<u8>,
    cc_rx: u64,
    cache: Seq<(Seq<u8>, u64)>,
    req: AuthRequestView,
    now: u64,
)
    ensures
        ({
            let r = judge(password, cc_rx, cache, req, now);
            let used = nonce_seen(cache, req.client_nonce, now);
            let proved = req.auth_proof == message::auth_proof_spec(password, req.client_nonce);
            &&& r.status == 0 <==> req.version == 1 && req.client_nonce.len() >= 8 && !used
                && proved
            &&& r.status == 0 ==> r.error_code == 0 && r.message.len() == 0 && r.server_cc_rx
                == cc_rx && r.server_features == 1
            &&& r.status != 0 ==> r.status == 1 && r.server_cc_rx == 0 && r.server_features == 0
            &&& req.version != 1 ==> r.error_code == 4 && r.message == encode_utf8(
                "unsupported protocol version"@,
            )
            &&& req.version == 1 && req.client_nonce.len() < 8 ==> r.error_code == 5 && r.message
                == encode_utf8("nonce too short"@)
            &&& req.version == 1 && req.client_nonce.len() >= 8 && used ==> r.error_code == 5
                && r.message == encode_utf8("nonce replay"@)
            &&& req.version == 1 && req.client_nonce.len() >= 8 && !used && !proved
                ==> r.error_code == 1 && r.message == encode_utf8("invalid credentials"@)
            &&& r.padding.len() == 0
        }),
{
}

proof fn lemma_purged_suffix(cache: Seq<(Seq<u8>, u64)>, now: u64)
    ensures
        purged(cache, now).len() <= cache.len(),
        purged(cache, now) == cache.skip(cache.len() - purged(cache, now).len()),
        forall|i: int|
            0 <= i < cache.len() - purged(cache, now).len() ==> now - (#[trigger] cache[i]).1
                > 600_000_000_000,
    decreases cache.len(),
{
    if cache.len() > 0 && expired(cache[0].1, now) {
        let c = cache.skip(1);
        lemma_purged_suffix(c, now);
        let k = cache.len() - purged(cache, now).len();
        assert(c.skip(k - 1) =~= cache.skip(k));
        assert forall|i: int| 0 <= i < k implies now - (#[trigger] cache[i]).1
            > 600_000_000_000 by {
            if i > 0 {
                assert(c[i - 1] == cache[i]);
            }
        }
    } else {
        assert(cache.skip(0) =~= cache);
    }
}

/// What is remembered after a nonce came in: the nonce, last, and before it what was remembered,
/// in the same order, of which only old entries have left: those that no longer count, and those
/// beyond the 8192 latest.
pub proof fn law_memory_of_nonces(cache: Seq<(Seq<u8>, u64)>, nonce: Seq<u8>, now: u64)
    ensures
        ({
            let after = nonce_remembered(cache, nonce, now);
            let gone = cache.len() + 1 - after.len();
            &&& 0 <= gone <= cache.len()
            &&& after == cache.skip(gone).push((nonce, now))
            &&& after.len() <= 8192
            &&& after.len() < 8192 ==> forall|i: int|
                0 <= i < gone ==> now - (#[trigger] cache[i]).1 > 600_000_000_000
        }),
{
    lemma_purged_suffix(cache, now);
    let p = purged(cache, now);
    let after = nonce_remembered(cache, nonce, now);
    let gone = cache.len() + 1 - after.len();
    if p.len() >= NONCE_CACHE_LEN {
        let k = cache.len() - p.len();
        assert(p.skip(p.len() - NONCE_CACHE_LEN + 1) =~= cache.skip(gone));
    }
}

/// A request adds its nonce to what is remembered, if it is long enough and not remembered, and
/// changes nothing else; what it is answered does not matter.
pub proof fn law_request_leaves_its_nonce(
    cache: Seq<(Seq<u8>, u64)>,
    req: AuthRequestView,
    now: u64,
)
    ensures
        req.client_nonce.len() >= 8 ==> nonce_seen(
            cache_after(cache, req, now),
            req.client_nonce,
            now,
        ),
        req.client_nonce.len() < 8 || nonce_seen(cache, req.client_nonce, now) ==> cache_after(
            cache,
            req,
            now,
        ) == cache,
        req.client_nonce.len() >= 8 && !nonce_seen(cache, req.client_nonce, now) ==> cache_after(
            cache,
            req,
            now,
        ) == nonce_remembered(cache, req.client_nonce, now),
{
    let after = nonce_remembered(cache, req.client_nonce, now);
    assert(after[after.len() - 1] == (req.client_nonce, now));
}

/// Every judgement is counted under what it was, once: an admission, another version, a wrong
/// proof, a used nonce; a nonce that is too short is not counted.
pub proof fn law_judgements_are_counted(
    m: Metrics,
    password: Seq<u8>,
    cc_rx: u64,
    cache: Seq<(Seq<u8>, u64)>,
    req: AuthRequestView,
    now: u64,
)
    ensures
        ({
            let r = judge(password, cc_rx, cache, req, now);
            let n = counted(m, cache, req, now, r);
            let used = nonce_seen(cache, req.client_nonce, now);
            let readable = req.version == 1 && req.client_nonce.len() >= 8;
            &&& n.auth_ok == (if r.status == 0 {
                m.auth_ok.wrapping_add(1)
            } else {
                m.auth_ok
            })
            &&& n.auth_unsupported == (if req.version != 1 {
                m.auth_unsupported.wrapping_add(1)
            } else {
                m.auth_unsupported
            })
            &&& n.auth_replay == (if readable && used {
                m.auth_replay.wrapping_add(1)
            } else {
                m.auth_replay
            })
            &&& n.auth_bad_credentials == (if readable && !used && r.status != 0 {
                m.auth_bad_credentials.wrapping_add(1)
            } else {
                m.auth_bad_credentials
            })
            &&& n == (Metrics {
                auth_ok: n.auth_ok,
                auth_unsupported: n.auth_unsupported,
                auth_replay: n.auth_replay,
                auth_bad_credentials: n.auth_bad_credentials,
                ..m
            })
        }),
{
}

/// Whoever is admitted has sent the proof that belongs to the server's password and to a
/// nonce that had not been used.
pub proof fn law_admitted_only_with_proof(
    password: Seq<u8>,
    cc_rx: u64,
    cache: Seq<(Seq<u8>, u64)>,
    req: AuthRequestView,
    now: u64,
)
    requires
        judge(password, cc_rx, cache, req, now).status == STATUS_OK,
    ensures
        req.version == PROTOCOL_VERSION,
        req.client_nonce.len() >= MIN_NONCE_LEN,
        req.auth_proof == message::auth_proof_spec(password, req.client_nonce),
        !nonce_seen(cache, req.client_nonce, now),
{
}

/// A nonce counts once: a request with a nonce that came in before, in whatever request and
/// whatever it was answered, is answered with a protocol error within the nonce's lifetime.
pub proof fn law_repeated_nonce_refused(
    password: Seq<u8>,
    cc_rx: u64,
    cache: Seq<(Seq<u8>, u64)>,
    first: AuthRequestView,
    used: u64,
    others: Seq<(AuthRequestView, u64)>,
    again: AuthRequestView,
    now: u64,
)
    requires
        first.client_nonce.len() >= 8,
        !nonce_seen(cache, first.client_nonce, used),
        again.client_nonce == first.client_nonce,
        again.version == 1,
        now - used <= 600_000_000_000,
        others.len() < 8192,
        forall|i: int| 0 <= i < others.len() ==> (#[trigger] others[i]).1 <= now,
    ensures
        judge(
            password,
            cc_rx,
            cache_after_all(cache_after(cache, first, used), others),
            again,
            now,
        ) == AuthResponseView::rejected(0x05, "nonce replay"@),
{
    law_nonce_reuse_recognised(cache, first, used, others, now);
}

/// A recorded authentication is worth nothing: sent again within the nonce's lifetime it is
/// answered with a protocol error.
pub proof fn law_replayed_request_refused(
    password: Seq<u8>,
    cc_rx: u64,
    cache: Seq<(Seq<u8>, u64)>,
    req: AuthRequestView,
    used: u64,
    others: Seq<(AuthRequestView, u64)>,
    now: u64,
)
    requires
        judge(password, cc_rx, cache, req, used).status == STATUS_OK,
        now - used <= 600_000_000_000,
        others.len() < 8192,
        forall|i: int| 0 <= i < others.len() ==> (#[trigger] others[i]).1 <= now,
    ensures
        judge(
            password,
            cc_rx,
            cache_after_all(cache_after(cache, req, used), others),
            req,
            now,
        ) == AuthResponseView::rejected(0x05, "nonce replay"@),
{
    law_repeated_nonce_refused(password, cc_rx, cache, req, used, others, req, now);
}

/// Judges authentications for one server.
pub struct Authenticator {
    password: Vec<u8>,
    cc_rx: u64,
    nonces: NonceCache,
}

impl Authenticator {
    pub closed spec fn password(&self) -> Seq<u8> {
        self.password@
    }

    /// The receive rate that the server announces.
    pub closed spec fn rate(&self) -> u64 {
        self.cc_rx
    }

    /// The nonces used so far.
    pub closed spec fn nonces(&self) -> Seq<(Seq<u8>, u64)> {
        self.nonces@
    }

    /// A judge that has admitted nobody yet.
    pub fn new(password: &[u8], cc_rx: u64) -> (a: Self)
        ensures
            a.password() == password@,
            a.rate() == cc_rx,
            a.nonces() == Seq::<(Seq<u8>, u64)>::empty(),
    {
        Authenticator { password: bytes::copy_slice(password), cc_rx, nonces: NonceCache::new() }
    }

    /// Judges a request that came at `now`. Its nonce is remembered, whatever the judgement,
    /// and the judgement is counted.
    pub fn validate(&mut self, req: &AuthRequest, now: u64, metrics: &mut Metrics) -> (r:
        AuthResponse)
        ensures
            r@ == judge(old(self).password(), old(self).rate(), old(self).nonces(), req@, now),
            final(self).password() == old(self).password(),
            final(self).rate() == old(self).rate(),
            final(self).nonces() == cache_after(old(self).nonces(), req@, now),
            *final(metrics) == counted(*old(metrics), old(self).nonces(), req@, now, r@),
    {
        let long_enough = req.client_nonce.len() >= MIN_NONCE_LEN;
        let replayed = self.nonces.seen(req.client_nonce.as_slice(), now);
        if long_enough && !replayed {
            self.nonces.remember(req.client_nonce.as_slice(), now);
        }
        if req.version != PROTOCOL_VERSION {
            metrics.auth_unsupported = metrics.auth_unsupported.wrapping_add(1);
            return AuthResponse::error_with_code(ERR_UNSUPPORTED, "unsupported protocol version");
        }
        if !long_enough {
            return AuthResponse::error_with_code(ERR_PROTOCOL, "nonce too short");
        }
        if replayed {
            metrics.auth_replay = metrics.auth_replay.wrapping_add(1);
            return AuthResponse::error_with_code(ERR_PROTOCOL, "nonce replay");
        }
        let expected = message::compute_auth_proof(
            self.password.as_slice(),
            req.client_nonce.as_slice(),
        );
        if !message::ct_eq(expected.as_slice(), req.auth_proof.as_slice()) {
            metrics.auth_bad_credentials = metrics.auth_bad_credentials.wrapping_add(1);
            return AuthResponse::error("invalid credentials");
        }
        metrics.auth_ok = metrics.auth_ok.wrapping_add(1);
        AuthResponse::ok(self.cc_rx, FEATURE_UDP)
    }
}

/// The counters after `req` was answered with `resp`.
pub open spec fn counted(
    m: Metrics,
    cache: Seq<(Seq<u8>, u64)>,
    req: AuthRequestView,
    now: u64,
    resp: AuthResponseView,
) -> Metrics {
    if resp.status == STATUS_OK {
        Metrics { auth_ok: m.auth_ok.wrapping_add(1), ..m }
    } else if resp.error_code == ERR_UNSUPPORTED {
        Metrics { auth_unsupported: m.auth_unsupported.wrapping_add(1), ..m }
    } else if resp.error_code == ERR_BAD_CREDENTIALS {
        Metrics { auth_bad_credentials: m.auth_bad_credentials.wrapping_add(1), ..m }
    } else if req.client_nonce.len() >= MIN_NONCE_LEN && nonce_seen(cache, req.client_nonce, now) {
        Metrics { auth_replay: m.auth_replay.wrapping_add(1), ..m }
    } else {
        m
    }
}

} // verus!
