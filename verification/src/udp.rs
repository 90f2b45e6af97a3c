//! The server's table of UDP sessions.
//!
//! A session belongs to the client address that opened it, so that no client can take over
//! the session of another by guessing its id. The table is bounded, in all and per address.

use vstd::prelude::*;
use vstd::string::*;

use crate::error::{Error, ErrorView, Result};
use crate::ip;
use crate::ip::IpAddr;
use crate::message::ERR_RATE_LIMITED;
use crate::metrics::Metrics;
use crate::quic;

verus! {

/// A session that has been quiet for longer than this is removed, in nanoseconds.
pub const SESSION_TIMEOUT_NANOS: u64 = 120_000_000_000;

/// How often quiet sessions are looked for, in seconds.
pub const SWEEP_INTERVAL_SECS: u64 = 30;

/// How many sessions there may be unless the server is told otherwise.
pub const DEFAULT_MAX_UDP_SESSIONS: usize = 4096;

/// How many sessions one address may have unless the server is told otherwise.
pub const DEFAULT_MAX_UDP_SESSIONS_PER_IP: usize = 64;

/// One UDP session.
#[derive(Debug)]
pub struct UdpSession {
    owner: IpAddr,
    session_id: u32,
    last_active: u64,
}

/// A session with its owner as octets.
#[verifier::ext_equal]
pub struct SessionView {
    pub owner: Seq<u8>,
    pub session_id: u32,
    pub last_active: u64,
}

impl View for UdpSession {
    type V = SessionView;

    closed spec fn view(&self) -> SessionView {
        SessionView {
            owner: self.owner@,
            session_id: self.session_id,
            last_active: self.last_active,
        }
    }
}

impl SessionView {
    pub open spec fn is(self, owner: Seq<u8>, id: u32) -> bool {
        self.owner == owner && self.session_id == id
    }

    /// Whether the session has been quiet for too long.
    pub open spec fn stale(self, now: u64) -> bool {
        now > self.last_active && now - self.last_active > SESSION_TIMEOUT_NANOS
    }
}

/// Whether there is a session of `owner` with this id.
pub open spec fn has_session(s: Seq<SessionView>, owner: Seq<u8>, id: u32) -> bool {
    exists|i: int| 0 <= i < s.len() && (#[trigger] s[i]).is(owner, id)
}

/// The number of sessions that `owner` has.
pub open spec fn owned_by(s: Seq<SessionView>, owner: Seq<u8>) -> nat
    decreases s.len(),
{
    if s.len() == 0 {
        0
    } else {
        owned_by(s.drop_last(), owner) + (if s.last().owner == owner {
            1nat
        } else {
            0
        })
    }
}

/// The sessions that are not stale, in their order.
pub open spec fn live(s: Seq<SessionView>, now: u64) -> Seq<SessionView>
    decreases s.len(),
{
    if s.len() == 0 {
        Seq::empty()
    } else if s.last().stale(now) {
        live(s.drop_last(), now)
    } else {
        live(s.drop_last(), now).push(s.last())
    }
}

/// The owners and ids of the sessions that are stale, in their order.
pub open spec fn stale_keys(s: Seq<SessionView>, now: u64) -> Seq<(Seq<u8>, u32)>
    decreases s.len(),
{
    if s.len() == 0 {
        Seq::empty()
    } else if s.last().stale(now) {
        stale_keys(s.drop_last(), now).push((s.last().owner, s.last().session_id))
    } else {
        stale_keys(s.drop_last(), now)
    }
}

/// How many sessions each address has, kept beside the table so that they need not be counted
/// for every new session.
#[derive(Debug)]
struct IpCounts {
    entries: Vec<(IpAddr, usize)>,
}

spec fn lookup(s: Seq<(IpAddr, usize)>, owner: Seq<u8>) -> nat
    decreases s.len(),
{
    if s.len() == 0 {
        0
    } else if s.last().0@ == owner {
        s.last().1 as nat
    } else {
        lookup(s.drop_last(), owner)
    }
}

spec fn distinct(s: Seq<(IpAddr, usize)>) -> bool {
    forall|i: int, j: int| 0 <= i < j < s.len() ==> (#[trigger] s[i]).0@ != (#[trigger] s[j]).0@
}

proof fn lemma_lookup_absent(s: Seq<(IpAddr, usize)>, owner: Seq<u8>)
    requires
        forall|i: int| 0 <= i < s.len() ==> (#[trigger] s[i]).0@ != owner,
    ensures
        lookup(s, owner) == 0,
    decreases s.len(),
{
    if s.len() > 0 {
        let d = s.drop_last();
        assert forall|i: int| 0 <= i < d.len() implies (#[trigger] d[i]).0@ != owner by {
            assert(s[i].0@ != owner);
        }
        assert(s[s.len() - 1].0@ != owner);
        lemma_lookup_absent(d, owner);
    }
}

proof fn lemma_distinct_front(s: Seq<(IpAddr, usize)>)
    requires
        distinct(s),
        s.len() > 0,
    ensures
        distinct(s.drop_last()),
{
    let d = s.drop_last();
    assert forall|i: int, j: int| 0 <= i < j < d.len() implies (#[trigger] d[i]).0@ != (
    #[trigger] d[j]).0@ by {
        assert(s[i].0@ != s[j].0@);
    }
}

proof fn lemma_lookup_at(s: Seq<(IpAddr, usize)>, k: int)
    requires
        distinct(s),
        0 <= k < s.len(),
    ensures
        lookup(s, s[k].0@) == s[k].1,
    decreases s.len(),
{
    if k < s.len() - 1 {
        let d = s.drop_last();
        lemma_distinct_front(s);
        lemma_lookup_at(d, k);
        assert(s[k].0@ != s[s.len() - 1].0@);
        assert(d[k] == s[k]);
    }
}

proof fn lemma_lookup_update(s: Seq<(IpAddr, usize)>, k: int, n: usize, owner: Seq<u8>)
    requires
        distinct(s),
        0 <= k < s.len(),
    ensures
        distinct(s.update(k, (s[k].0, n))),
        lookup(s.update(k, (s[k].0, n)), owner) == (if owner == s[k].0@ {
            n as nat
        } else {
            lookup(s, owner)
        }),
    decreases s.len(),
{
    let t = s.update(k, (s[k].0, n));
    assert forall|i: int, j: int| 0 <= i < j < t.len() implies (#[trigger] t[i]).0@ != (
    #[trigger] t[j]).0@ by {
        assert(s[i].0@ != s[j].0@);
    }
    let d = s.drop_last();
    if k < s.len() - 1 {
        lemma_distinct_front(s);
        lemma_lookup_update(d, k, n, owner);
        assert(t.drop_last() =~= d.update(k, (d[k].0, n)));
        assert(s[k].0@ != s[s.len() - 1].0@);
    } else {
        assert(t.drop_last() =~= d);
    }
}

proof fn lemma_lookup_remove(s: Seq<(IpAddr, usize)>, k: int, owner: Seq<u8>)
    requires
        distinct(s),
        0 <= k < s.len(),
    ensures
        distinct(s.remove(k)),
        lookup(s.remove(k), owner) == (if owner == s[k].0@ {
            0
        } else {
            lookup(s, owner)
        }),
    decreases s.len(),
{
    let t = s.remove(k);
    assert forall|i: int, j: int| 0 <= i < j < t.len() implies (#[trigger] t[i]).0@ != (
    #[trigger] t[j]).0@ by {
        let i2 = if i < k { i } else { i + 1 };
        let j2 = if j < k { j } else { j + 1 };
        assert(s[i2].0@ != s[j2].0@);
    }
    let d = s.drop_last();
    if k < s.len() - 1 {
        lemma_distinct_front(s);
        lemma_lookup_remove(d, k, owner);
        assert(t.drop_last() =~= d.remove(k));
        assert(t.last() == s.last());
        assert(s[k].0@ != s[s.len() - 1].0@);
    } else {
        assert(t =~= d);
        if owner == s[k].0@ {
            assert forall|i: int| 0 <= i < d.len() implies (#[trigger] d[i]).0@ != owner by {
                assert(s[i].0@ != s[k].0@);
            }
            lemma_lookup_absent(d, owner);
        }
    }
}

impl IpCounts {
    /// The number recorded for `owner`.
    spec fn count_of(&self, owner: Seq<u8>) -> nat {
        lookup(self.entries@, owner)
    }

    /// Every address is recorded once, and none with zero.
    spec fn wf(&self) -> bool {
        &&& distinct(self.entries@)
        &&& forall|i: int| 0 <= i < self.entries@.len() ==> (#[trigger] self.entries@[i]).1 > 0
    }

    fn new() -> (c: Self)
        ensures
            c.wf(),
            forall|o: Seq<u8>| c.count_of(o) == 0,
    {
        IpCounts { entries: Vec::new() }
    }

    fn position(&self, owner: &IpAddr) -> (r: Option<usize>)
        requires
            self.wf(),
        ensures
            match r {
                Some(i) => i < self.entries@.len() && self.entries@[i as int].0@ == owner@
                    && self.entries@[i as int].1 == self.count_of(owner@),
                None => self.count_of(owner@) == 0 && forall|i: int|
                    0 <= i < self.entries@.len() ==> (#[trigger] self.entries@[i]).0@ != owner@,
            },
    {
        let mut i: usize = 0;
        while i < self.entries.len()
            invariant
                self.wf(),
                i <= self.entries@.len(),
                forall|j: int| 0 <= j < i ==> (#[trigger] self.entries@[j]).0@ != owner@,
            decreases self.entries@.len() - i,
        {
            if ip::same_ip(&self.entries[i].0, owner) {
                proof {
                    lemma_lookup_at(self.entries@, i as int);
                }
                return Some(i);
            }
            i = i + 1;
        }
        proof {
            lemma_lookup_absent(self.entries@, owner@);
        }
        None
    }

    fn get(&self, owner: &IpAddr) -> (n: usize)
        requires
            self.wf(),
        ensures
            n == self.count_of(owner@),
    {
        match self.position(owner) {
            Some(i) => self.entries[i].1,
            None => 0,
        }
    }

    fn increment(&mut self, owner: &IpAddr)
        requires
            old(self).wf(),
            old(self).count_of(owner@) < usize::MAX,
        ensures
            final(self).wf(),
            forall|o: Seq<u8>|
                #[trigger] final(self).count_of(o) == (if o == owner@ {
                    old(self).count_of(o) + 1
                } else {
                    old(self).count_of(o)
                }),
    {
        let ghost before = self.entries@;
        match self.position(owner) {
            Some(i) => {
                let n: usize = self.entries[i].1 + 1;
                let key: IpAddr = self.entries[i].0;
                self.entries.set(i, (key, n));
                proof {
                    assert forall|o: Seq<u8>| #[trigger]
                        self.count_of(o) == (if o == owner@ {
                            lookup(before, o) + 1
                        } else {
                            lookup(before, o)
                        }) by {
                        lemma_lookup_update(before, i as int, n, o);
                    }
                    lemma_lookup_update(before, i as int, n, owner@);
                    assert forall|k: int| 0 <= k < self.entries@.len() implies (
                    #[trigger] self.entries@[k]).1 > 0 by {
                        if k != i {
                            assert(before[k].1 > 0);
                        }
                    }
                }
            },
            None => {
                self.entries.push((*owner, 1));
                proof {
                    assert(self.entries@.drop_last() =~= before);
                    assert forall|i: int, j: int| 0 <= i < j < self.entries@.len() implies (
                    #[trigger] self.entries@[i]).0@ != (#[trigger] self.entries@[j]).0@ by {
                        if j < before.len() {
                            assert(before[i].0@ != before[j].0@);
                        } else {
                            assert(before[i].0@ != owner@);
                        }
                    }
                    assert forall|k: int| 0 <= k < self.entries@.len() implies (
                    #[trigger] self.entries@[k]).1 > 0 by {
                        if k < before.len() {
                            assert(before[k].1 > 0);
                        }
                    }
                }
            },
        }
    }

    fn decrement(&mut self, owner: &IpAddr)
        requires
            old(self).wf(),
        ensures
            final(self).wf(),
            forall|o: Seq<u8>|
                #[trigger] final(self).count_of(o) == (if o == owner@ && old(self).count_of(o) > 0 {
                    (old(self).count_of(o) - 1) as nat
                } else {
                    old(self).count_of(o)
                }),
    {
        let ghost before = self.entries@;
        if let Some(i) = self.position(owner) {
            let n: usize = self.entries[i].1.saturating_sub(1);
            if n == 0 {
                let _ = self.entries.remove(i);
                proof {
                    assert forall|o: Seq<u8>| #[trigger]
                        self.count_of(o) == (if o == owner@ && lookup(before, o) > 0 {
                            (lookup(before, o) - 1) as nat
                        } else {
                            lookup(before, o)
                        }) by {
                        lemma_lookup_remove(before, i as int, o);
                    }
                    lemma_lookup_remove(before, i as int, owner@);
                    assert forall|k: int| 0 <= k < self.entries@.len() implies (
                    #[trigger] self.entries@[k]).1 > 0 by {
                        let k2 = if k < i { k } else { k + 1 };
                        assert(before[k2].1 > 0);
                    }
                }
            } else {
                let key: IpAddr = self.entries[i].0;
                self.entries.set(i, (key, n));
                proof {
                    assert forall|o: Seq<u8>| #[trigger]
                        self.count_of(o) == (if o == owner@ && lookup(before, o) > 0 {
                            (lookup(before, o) - 1) as nat
                        } else {
                            lookup(before, o)
                        }) by {
                        lemma_lookup_update(before, i as int, n, o);
                    }
                    lemma_lookup_update(before, i as int, n, owner@);
                    assert forall|k: int| 0 <= k < self.entries@.len() implies (
                    #[trigger] self.entries@[k]).1 > 0 by {
                        if k != i {
                            assert(before[k].1 > 0);
                        }
                    }
                }
            }
        }
    }
}

proof fn lemma_owned_by_le(s: Seq<SessionView>, o: Seq<u8>)
    ensures
        owned_by(s, o) <= s.len(),
    decreases s.len(),
{
    if s.len() > 0 {
        lemma_owned_by_le(s.drop_last(), o);
    }
}

proof fn lemma_owned_by_same_owners(s: Seq<SessionView>, t: Seq<SessionView>, o: Seq<u8>)
    requires
        s.len() == t.len(),
        forall|i: int| 0 <= i < s.len() ==> (#[trigger] s[i]).owner == t[i].owner,
    ensures
        owned_by(s, o) == owned_by(t, o),
    decreases s.len(),
{
    if s.len() > 0 {
        let a = s.drop_last();
        let b = t.drop_last();
        assert forall|i: int| 0 <= i < a.len() implies (#[trigger] a[i]).owner == b[i].owner by {
            assert(s[i].owner == t[i].owner);
        }
        lemma_owned_by_same_owners(a, b, o);
        assert(s[s.len() - 1].owner == t[t.len() - 1].owner);
    }
}

proof fn lemma_owned_by_push(s: Seq<SessionView>, e: SessionView, o: Seq<u8>)
    ensures
        owned_by(s.push(e), o) == owned_by(s, o) + (if e.owner == o {
            1nat
        } else {
            0
        }),
{
    assert(s.push(e).drop_last() =~= s);
}

proof fn lemma_owned_by_remove(s: Seq<SessionView>, k: int, o: Seq<u8>)
    requires
        0 <= k < s.len(),
    ensures
        owned_by(s, o) == owned_by(s.remove(k), o) + (if s[k].owner == o {
            1nat
        } else {
            0
        }),
    decreases s.len(),
{
    let t = s.remove(k);
    if k < s.len() - 1 {
        lemma_owned_by_remove(s.drop_last(), k, o);
        assert(t.drop_last() =~= s.drop_last().remove(k));
        assert(t.last() == s.last());
    } else {
        assert(t =~= s.drop_last());
    }
}

/// Whether no two sessions have the same owner and the same id.
pub open spec fn unique_sessions(s: Seq<SessionView>) -> bool {
    forall|i: int, j: int|
        0 <= i < j < s.len() ==> !((#[trigger] s[i]).owner == (#[trigger] s[j]).owner
            && s[i].session_id == s[j].session_id)
}

/// The sessions once that of `owner` with this id was active at `now`.
pub open spec fn touched(s: Seq<SessionView>, owner: Seq<u8>, id: u32, now: u64) -> Seq<
    SessionView,
> {
    Seq::new(
        s.len(),
        |i: int|
            if s[i].is(owner, id) {
                SessionView { last_active: now, ..s[i] }
            } else {
                s[i]
            },
    )
}

/// The sessions without that of `owner` with this id.
pub open spec fn without(s: Seq<SessionView>, owner: Seq<u8>, id: u32) -> Seq<SessionView>
    decreases s.len(),
{
    if s.len() == 0 {
        Seq::empty()
    } else if s.last().is(owner, id) {
        without(s.drop_last(), owner, id)
    } else {
        without(s.drop_last(), owner, id).push(s.last())
    }
}

proof fn lemma_without_absent(s: Seq<SessionView>, owner: Seq<u8>, id: u32)
    requires
        forall|i: int| 0 <= i < s.len() ==> !(#[trigger] s[i]).is(owner, id),
    ensures
        without(s, owner, id) == s,
    decreases s.len(),
{
    if s.len() > 0 {
        let d = s.drop_last();
        assert forall|i: int| 0 <= i < d.len() implies !(#[trigger] d[i]).is(owner, id) by {
            assert(!s[i].is(owner, id));
        }
        lemma_without_absent(d, owner, id);
        assert(!s[s.len() - 1].is(owner, id));
        assert(d.push(s.last()) =~= s);
    } else {
        assert(s =~= Seq::empty());
    }
}

proof fn lemma_without_is_remove(s: Seq<SessionView>, k: int, owner: Seq<u8>, id: u32)
    requires
        unique_sessions(s),
        0 <= k < s.len(),
        s[k].is(owner, id),
    ensures
        without(s, owner, id) == s.remove(k),
    decreases s.len(),
{
    let d = s.drop_last();
    assert(unique_sessions(d)) by {
        assert forall|i: int, j: int| 0 <= i < j < d.len() implies !((#[trigger] d[i]).owner == (
        #[trigger] d[j]).owner && d[i].session_id == d[j].session_id) by {
            assert(!(s[i].owner == s[j].owner && s[i].session_id == s[j].session_id));
        }
    }
    if k < s.len() - 1 {
        let l = s.len() - 1;
        assert(!(s[k].owner == s[l].owner && s[k].session_id == s[l].session_id));
        lemma_without_is_remove(d, k, owner, id);
        assert(s.remove(k) =~= d.remove(k).push(s.last()));
    } else {
        assert forall|i: int| 0 <= i < d.len() implies !(#[trigger] d[i]).is(owner, id) by {
            assert(!(s[i].owner == s[k].owner && s[i].session_id == s[k].session_id));
        }
        lemma_without_absent(d, owner, id);
        assert(s.remove(k) =~= d);
    }
}

proof fn lemma_unique_remove(s: Seq<SessionView>, k: int)
    requires
        unique_sessions(s),
        0 <= k < s.len(),
    ensures
        unique_sessions(s.remove(k)),
{
    let t = s.remove(k);
    assert forall|i: int, j: int| 0 <= i < j < t.len() implies !((#[trigger] t[i]).owner == (
    #[trigger] t[j]).owner && t[i].session_id == t[j].session_id) by {
        let i2 = if i < k { i } else { i + 1 };
        let j2 = if j < k { j } else { j + 1 };
        assert(!(s[i2].owner == s[j2].owner && s[i2].session_id == s[j2].session_id));
    }
}

/// The table as a sequence of sessions, oldest first, with its limits.
#[verifier::ext_equal]
pub struct UdpView {
    pub sessions: Seq<SessionView>,
    pub max_sessions: usize,
    pub max_per_ip: usize,
}

impl UdpView {
    /// Every session is there once, and neither limit is exceeded.
    pub open spec fn wf(self) -> bool {
        &&& unique_sessions(self.sessions)
        &&& self.sessions.len() <= self.max_sessions
        &&& forall|o: Seq<u8>| #[trigger] owned_by(self.sessions, o) <= self.max_per_ip
    }

    /// Whether one more session fits into the table.
    pub open spec fn has_room(self) -> bool {
        self.sessions.len() < self.max_sessions
    }

    /// Whether `owner` may have one more session.
    pub open spec fn has_room_for(self, owner: Seq<u8>) -> bool {
        owned_by(self.sessions, owner) < self.max_per_ip
    }

    /// The refusal of a new session of `owner`, if there is no room for it.
    pub open spec fn refusal(self, owner: Seq<u8>) -> Option<ErrorView> {
        if !self.has_room() {
            Some(rate_limited_view("udp session table full"@))
        } else if !self.has_room_for(owner) {
            Some(rate_limited_view("too many udp sessions for this ip"@))
        } else {
            None
        }
    }
}

/// The error of a client that wants more than its share.
pub open spec fn rate_limited_view(msg: Seq<char>) -> ErrorView {
    ErrorView::Message(quic::coded_text(ERR_RATE_LIMITED, msg))
}

fn rate_limited(msg: &str) -> (e: Error)
    ensures
        e@ == rate_limited_view(msg@),
{
    Error::Message(quic::coded(ERR_RATE_LIMITED, msg))
}

/// What a packet needs before it can be sent.
#[derive(Debug, Clone, Copy, PartialEq, Eq)]
pub enum Forward {
    /// Nothing: its session exists.
    Existing,
    /// A socket for a new session, to be handed to `register`.
    OpenSocket,
}

/// The sessions, and how many of them each address has.
#[derive(Debug)]
struct Book {
    sessions: Vec<UdpSession>,
    per_ip: IpCounts,
}

spec fn session_views(s: Seq<UdpSession>) -> Seq<SessionView> {
    Seq::new(s.len(), |i: int| s[i]@)
}

impl Book {
    spec fn views(&self) -> Seq<SessionView> {
        session_views(self.sessions@)
    }

    /// Every session is there once, and the counts agree with the sessions.
    spec fn wf(&self) -> bool {
        &&& unique_sessions(self.views())
        &&& self.per_ip.wf()
        &&& forall|o: Seq<u8>| #[trigger] self.per_ip.count_of(o) == owned_by(self.views(), o)
    }

    fn new() -> (b: Self)
        ensures
            b.wf(),
            b.views() == Seq::<SessionView>::empty(),
    {
        let b = Book { sessions: Vec::new(), per_ip: IpCounts::new() };
        assert(b.views() =~= Seq::empty());
        b
    }

    fn position(&self, owner: &IpAddr, id: u32) -> (r: Option<usize>)
        ensures
            match r {
                Some(i) => i < self.views().len() && self.views()[i as int].is(owner@, id)
                    && has_session(self.views(), owner@, id),
                None => !has_session(self.views(), owner@, id),
            },
    {
        let mut i: usize = 0;
        while i < self.sessions.len()
            invariant
                i <= self.sessions@.len(),
                forall|j: int| 0 <= j < i ==> !(#[trigger] self.views()[j]).is(owner@, id),
            decreases self.sessions@.len() - i,
        {
            let s = &self.sessions[i];
            assert(self.views()[i as int] == s@);
            if s.session_id == id && ip::same_ip(&s.owner, owner) {
                return Some(i);
            }
            i = i + 1;
        }
        None
    }

    fn touch(&mut self, i: usize, owner: &IpAddr, id: u32, now: u64)
        requires
            old(self).wf(),
            i < old(self).views().len(),
            old(self).views()[i as int].is(owner@, id),
        ensures
            final(self).wf(),
            final(self).views() == touched(old(self).views(), owner@, id, now),
            forall|o: Seq<u8>| #[trigger]
                owned_by(final(self).views(), o) == owned_by(old(self).views(), o),
    {
        let ghost before = self.views();
        let s = UdpSession {
            owner: self.sessions[i].owner,
            session_id: self.sessions[i].session_id,
            last_active: now,
        };
        self.sessions.set(i, s);
        proof {
            let t = touched(before, owner@, id, now);
            assert forall|j: int| 0 <= j < t.len() implies self.views()[j] == t[j] by {
                if j < i {
                    assert(!(before[j].owner == before[i as int].owner && before[j].session_id
                        == before[i as int].session_id));
                } else if j > i {
                    assert(!(before[i as int].owner == before[j].owner
                        && before[i as int].session_id == before[j].session_id));
                }
            }
            assert(self.views() =~= t);
            assert forall|o: Seq<u8>| #[trigger] owned_by(self.views(), o) == owned_by(
                before,
                o,
            ) by {
                lemma_owned_by_same_owners(before, self.views(), o);
            }
            assert forall|a: int, b: int| 0 <= a < b < t.len() implies !((#[trigger] t[a]).owner
                == (#[trigger] t[b]).owner && t[a].session_id == t[b].session_id) by {
                assert(!(before[a].owner == before[b].owner && before[a].session_id
                    == before[b].session_id));
            }
        }
    }

    fn add_session(&mut self, owner: &IpAddr, id: u32, now: u64)
        requires
            old(self).wf(),
            !has_session(old(self).views(), owner@, id),
            owned_by(old(self).views(), owner@) < usize::MAX,
        ensures
            final(self).wf(),
            final(self).views() == old(self).views().push(
                SessionView { owner: owner@, session_id: id, last_active: now },
            ),
            forall|o: Seq<u8>| #[trigger]
                owned_by(final(self).views(), o) == owned_by(old(self).views(), o) + (if o
                    == owner@ {
                    1nat
                } else {
                    0
                }),
    {
        let ghost before = self.views();
        let ghost entry = SessionView { owner: owner@, session_id: id, last_active: now };
        self.per_ip.increment(owner);
        self.sessions.push(UdpSession { owner: *owner, session_id: id, last_active: now });
        proof {
            assert(self.views() =~= before.push(entry));
            assert forall|o: Seq<u8>| #[trigger] owned_by(self.views(), o) == owned_by(before, o)
                + (if o == owner@ {
                1nat
            } else {
                0
            }) by {
                lemma_owned_by_push(before, entry, o);
            }
            let t = self.views();
            assert forall|a: int, b: int| 0 <= a < b < t.len() implies !((#[trigger] t[a]).owner
                == (#[trigger] t[b]).owner && t[a].session_id == t[b].session_id) by {
                if b < before.len() {
                    assert(!(before[a].owner == before[b].owner && before[a].session_id
                        == before[b].session_id));
                } else {
                    assert(!before[a].is(owner@, id));
                }
            }
        }
    }

    fn remove_at(&mut self, i: usize, owner: &IpAddr, id: u32)
        requires
            old(self).wf(),
            i < old(self).views().len(),
            old(self).views()[i as int].is(owner@, id),
        ensures
            final(self).wf(),
            final(self).views() == without(old(self).views(), owner@, id),
            final(self).views().len() == old(self).views().len() - 1,
            forall|o: Seq<u8>| #[trigger]
                owned_by(final(self).views(), o) <= owned_by(old(self).views(), o),
    {
        let ghost before = self.views();
        let _ = self.sessions.remove(i);
        self.per_ip.decrement(owner);
        proof {
            assert(self.views() =~= before.remove(i as int));
            lemma_without_is_remove(before, i as int, owner@, id);
            lemma_unique_remove(before, i as int);
            assert forall|o: Seq<u8>| #[trigger] owned_by(before, o) == owned_by(self.views(), o)
                + (if o == owner@ {
                1nat
            } else {
                0
            }) by {
                lemma_owned_by_remove(before, i as int, o);
            }
            assert forall|o: Seq<u8>| #[trigger] self.per_ip.count_of(o) == owned_by(
                self.views(),
                o,
            ) by {
                assert(owned_by(before, o) == owned_by(self.views(), o) + (if o == owner@ {
                    1nat
                } else {
                    0
                }));
            }
            assert forall|o: Seq<u8>| #[trigger] owned_by(self.views(), o) <= owned_by(
                before,
                o,
            ) by {
                assert(owned_by(before, o) >= owned_by(self.views(), o));
            }
        }
    }

    fn drop_stale(&mut self, now: u64) -> (gone: Vec<(IpAddr, u32)>)
        requires
            old(self).wf(),
        ensures
            final(self).wf(),
            final(self).views() == live(old(self).views(), now),
            key_views(gone@) == stale_keys(old(self).views(), now),
            forall|o: Seq<u8>| #[trigger]
                owned_by(final(self).views(), o) <= owned_by(old(self).views(), o),
    {
        let ghost s = self.views();
        let mut kept: Vec<UdpSession> = Vec::new();
        let mut gone: Vec<(IpAddr, u32)> = Vec::new();
        let mut i: usize = 0;
        proof {
            assert(session_views(kept@) + s.skip(0) =~= s);
            assert(session_views(kept@) =~= live(s.take(0), now));
            assert(key_views(gone@) =~= stale_keys(s.take(0), now));
        }
        while i < self.sessions.len()
            invariant
                self.views() == s,
                i <= s.len(),
                self.sessions@.len() == s.len(),
                session_views(kept@) == live(s.take(i as int), now),
                key_views(gone@) == stale_keys(s.take(i as int), now),
                self.per_ip.wf(),
                unique_sessions(session_views(kept@) + s.skip(i as int)),
                kept@.len() <= i,
                forall|o: Seq<u8>| #[trigger]
                    self.per_ip.count_of(o) == owned_by(
                        session_views(kept@) + s.skip(i as int),
                        o,
                    ),
                forall|o: Seq<u8>| #[trigger]
                    owned_by(session_views(kept@) + s.skip(i as int), o) <= owned_by(s, o),
            decreases s.len() - i,
        {
            let e = &self.sessions[i];
            let owner: IpAddr = e.owner;
            let id: u32 = e.session_id;
            let last: u64 = e.last_active;
            let ghost kv = session_views(kept@);
            let ghost whole = kv + s.skip(i as int);
            proof {
                assert(s[i as int] == e@);
                assert(s.take(i as int + 1).drop_last() =~= s.take(i as int));
                assert(s.take(i as int + 1).last() == s[i as int]);
                assert(whole[kv.len() as int] == s[i as int]);
            }
            if now > last && now - last > SESSION_TIMEOUT_NANOS {
                gone.push((owner, id));
                self.per_ip.decrement(&owner);
                proof {
                    let rest = kv + s.skip(i as int + 1);
                    assert(rest =~= whole.remove(kv.len() as int));
                    lemma_unique_remove(whole, kv.len() as int);
                    assert forall|o: Seq<u8>| #[trigger] owned_by(whole, o) == owned_by(rest, o)
                        + (if o == owner@ {
                        1nat
                    } else {
                        0
                    }) by {
                        lemma_owned_by_remove(whole, kv.len() as int, o);
                    }
                    assert forall|o: Seq<u8>| #[trigger] self.per_ip.count_of(o) == owned_by(
                        rest,
                        o,
                    ) by {
                        assert(owned_by(whole, o) == owned_by(rest, o) + (if o == owner@ {
                            1nat
                        } else {
                            0
                        }));
                    }
                    assert forall|o: Seq<u8>| #[trigger] owned_by(rest, o) <= owned_by(s, o) by {
                        assert(owned_by(whole, o) <= owned_by(s, o));
                    }
                    assert(key_views(gone@) =~= stale_keys(s.take(i as int), now).push(
                        (owner@, id),
                    ));
                }
            } else {
                kept.push(UdpSession { owner, session_id: id, last_active: last });
                proof {
                    assert(session_views(kept@) =~= kv.push(s[i as int]));
                    assert(session_views(kept@) + s.skip(i as int + 1) =~= whole);
                }
            }
            i = i + 1;
        }
        self.sessions = kept;
        proof {
            assert(s.take(i as int) =~= s);
            assert(self.views() + s.skip(i as int) =~= self.views());
        }
        gone
    }
}

/// The table of UDP sessions.
#[derive(Debug)]
pub struct UdpManager {
    book: Book,
    max_sessions: usize,
    max_per_ip: usize,
}

impl View for UdpManager {
    type V = UdpView;

    closed spec fn view(&self) -> UdpView {
        UdpView {
            sessions: self.book.views(),
            max_sessions: self.max_sessions,
            max_per_ip: self.max_per_ip,
        }
    }
}

impl UdpManager {
    #[verifier::type_invariant]
    spec fn in_order(self) -> bool {
        self@.wf() && self.book.wf()
    }

    /// An empty table with the default limits.
    pub fn new() -> (m: Self)
        ensures
            m@ == (UdpView {
                sessions: Seq::empty(),
                max_sessions: DEFAULT_MAX_UDP_SESSIONS,
                max_per_ip: DEFAULT_MAX_UDP_SESSIONS_PER_IP,
            }),
            m@.max_sessions == 4096 && m@.max_per_ip == 64,
    {
        Self::with_limits(DEFAULT_MAX_UDP_SESSIONS, DEFAULT_MAX_UDP_SESSIONS_PER_IP)
    }

    /// An empty table. A limit of zero stands for the default.
    pub fn with_limits(max_sessions: usize, max_per_ip: usize) -> (m: Self)
        ensures
            m@ == (UdpView {
                sessions: Seq::empty(),
                max_sessions: if max_sessions == 0 {
                    DEFAULT_MAX_UDP_SESSIONS
                } else {
                    max_sessions
                },
                max_per_ip: if max_per_ip == 0 {
                    DEFAULT_MAX_UDP_SESSIONS_PER_IP
                } else {
                    max_per_ip
                },
            }),
    {
        UdpManager {
            book: Book::new(),
            max_sessions: if max_sessions == 0 {
                DEFAULT_MAX_UDP_SESSIONS
            } else {
                max_sessions
            },
            max_per_ip: if max_per_ip == 0 {
                DEFAULT_MAX_UDP_SESSIONS_PER_IP
            } else {
                max_per_ip
            },
        }
    }

    /// Takes the sessions out, to be put back changed.
    fn take_book(&mut self) -> (b: Book)
        ensures
            b.wf(),
            old(self)@.wf(),
            b.views() == old(self)@.sessions,
            final(self)@ == (UdpView { sessions: Seq::empty(), ..old(self)@ }),
    {
        proof {
            use_type_invariant(&*self);
        }
        let mut book = Book::new();
        core::mem::swap(&mut book, &mut self.book);
        book
    }

    /// The number of sessions.
    pub fn session_count(&self) -> (n: usize)
        ensures
            n == self@.sessions.len(),
    {
        self.book.sessions.len()
    }

    fn refuse(&self, owner: &IpAddr, metrics: &mut Metrics) -> (r: Option<Error>)
        ensures
            match self@.refusal(owner@) {
                Some(v) => {
                    &&& r matches Some(e)
                    &&& e@ == v
                    &&& *final(metrics) == (Metrics {
                        udp_sessions_rejected: old(metrics).udp_sessions_rejected.wrapping_add(1),
                        ..*old(metrics)
                    })
                },
                None => r is None && *final(metrics) == *old(metrics),
            },
    {
        proof {
            use_type_invariant(self);
        }
        if self.book.sessions.len() >= self.max_sessions {
            metrics.udp_sessions_rejected = metrics.udp_sessions_rejected.wrapping_add(1);
            return Some(rate_limited("udp session table full"));
        }
        if self.book.per_ip.get(owner) >= self.max_per_ip {
            metrics.udp_sessions_rejected = metrics.udp_sessions_rejected.wrapping_add(1);
            return Some(rate_limited("too many udp sessions for this ip"));
        }
        None
    }

    /// Prepares a packet of the client `owner` for sending at `now`: an existing session is
    /// marked as active; for a new one there has to be room, or the client is told that it
    /// wants too much.
    pub fn forward(&mut self, owner: &IpAddr, id: u32, now: u64, metrics: &mut Metrics) -> (r:
        Result<Forward>)
        ensures
            final(self)@.wf(),
            old(metrics).udp_sessions_current == old(self)@.sessions.len() ==>
                final(metrics).udp_sessions_current == final(self)@.sessions.len(),
            has_session(old(self)@.sessions, owner@, id) ==> {
                &&& r matches Ok(Forward::Existing)
                &&& final(self)@ == (UdpView {
                    sessions: touched(old(self)@.sessions, owner@, id, now),
                    ..old(self)@
                })
                &&& *final(metrics) == *old(metrics)
            },
            !has_session(old(self)@.sessions, owner@, id) ==> {
                &&& final(self)@ == old(self)@
                &&& match old(self)@.refusal(owner@) {
                    Some(v) => {
                        &&& r matches Err(e)
                        &&& e@ == v
                        &&& *final(metrics) == (Metrics {
                            udp_sessions_rejected: old(metrics).udp_sessions_rejected.wrapping_add(
                                1,
                            ),
                            ..*old(metrics)
                        })
                    },
                    None => (r matches Ok(Forward::OpenSocket)) && *final(metrics) == *old(
                        metrics,
                    ),
                }
            },
    {
        match self.book.position(owner, id) {
            Some(i) => {
                let mut book = self.take_book();
                book.touch(i, owner, id, now);
                self.book = book;
                Ok(Forward::Existing)
            },
            None => {
                proof {
                    use_type_invariant(&*self);
                }
                match self.refuse(owner, metrics) {
                    Some(e) => Err(e),
                    None => Ok(Forward::OpenSocket),
                }
            },
        }
    }

    /// Enters a new session of `owner` into the table, and counts it. If it is there already
    /// it is marked as active instead, and if there is no room it is refused.
    pub fn register(&mut self, owner: &IpAddr, id: u32, now: u64, metrics: &mut Metrics) -> (r:
        Result<()>)
        ensures
            final(self)@.wf(),
            old(metrics).udp_sessions_current == old(self)@.sessions.len() ==>
                final(metrics).udp_sessions_current == final(self)@.sessions.len(),
            has_session(old(self)@.sessions, owner@, id) ==> {
                &&& r is Ok
                &&& final(self)@ == (UdpView {
                    sessions: touched(old(self)@.sessions, owner@, id, now),
                    ..old(self)@
                })
                &&& *final(metrics) == *old(metrics)
            },
            !has_session(old(self)@.sessions, owner@, id) ==> match old(self)@.refusal(owner@) {
                Some(v) => {
                    &&& r matches Err(e)
                    &&& e@ == v
                    &&& final(self)@ == old(self)@
                    &&& *final(metrics) == (Metrics {
                        udp_sessions_rejected: old(metrics).udp_sessions_rejected.wrapping_add(1),
                        ..*old(metrics)
                    })
                },
                None => {
                    &&& r is Ok
                    &&& final(self)@ == (UdpView {
                        sessions: old(self)@.sessions.push(
                            SessionView { owner: owner@, session_id: id, last_active: now },
                        ),
                        ..old(self)@
                    })
                    &&& *final(metrics) == (Metrics {
                        udp_sessions_current: old(metrics).udp_sessions_current.wrapping_add(1),
                        udp_sessions_created: old(metrics).udp_sessions_created.wrapping_add(1),
                        ..*old(metrics)
                    })
                },
            },
    {
        proof {
            use_type_invariant(&*self);
        }
        if let Some(i) = self.book.position(owner, id) {
            let mut book = self.take_book();
            book.touch(i, owner, id, now);
            self.book = book;
            return Ok(());
        }
        if let Some(e) = self.refuse(owner, metrics) {
            return Err(e);
        }
        proof {
            lemma_owned_by_le(self@.sessions, owner@);
        }
        let mut book = self.take_book();
        book.add_session(owner, id, now);
        self.book = book;
        metrics.udp_sessions_current = metrics.udp_sessions_current.wrapping_add(1);
        metrics.udp_sessions_created = metrics.udp_sessions_created.wrapping_add(1);
        Ok(())
    }

    /// Removes the session of `owner` with this id, if there is one.
    pub fn remove_session(&mut self, owner: &IpAddr, id: u32, metrics: &mut Metrics)
        ensures
            final(self)@.wf(),
            old(metrics).udp_sessions_current == old(self)@.sessions.len() ==>
                final(metrics).udp_sessions_current == final(self)@.sessions.len(),
            final(self)@ == (UdpView {
                sessions: without(old(self)@.sessions, owner@, id),
                ..old(self)@
            }),
            *final(metrics) == (if has_session(old(self)@.sessions, owner@, id) {
                Metrics {
                    udp_sessions_current: old(metrics).udp_sessions_current.wrapping_sub(1),
                    ..*old(metrics)
                }
            } else {
                *old(metrics)
            }),
    {
        proof {
            use_type_invariant(&*self);
        }
        let ghost before = self@;
        match self.book.position(owner, id) {
            Some(i) => {
                let mut book = self.take_book();
                book.remove_at(i, owner, id);
                proof {
                    assert forall|o: Seq<u8>| #[trigger] owned_by(book.views(), o)
                        <= before.max_per_ip by {
                        assert(owned_by(before.sessions, o) <= before.max_per_ip);
                    }
                }
                self.book = book;
                metrics.udp_sessions_current = metrics.udp_sessions_current.wrapping_sub(1);
            },
            None => {
                proof {
                    lemma_without_absent(before.sessions, owner@, id);
                }
            },
        }
    }

    /// Removes the sessions that have been quiet for too long; gives their owners and ids.
    pub fn sweep(&mut self, now: u64, metrics: &mut Metrics) -> (gone: Vec<(IpAddr, u32)>)
        ensures
            final(self)@.wf(),
            old(metrics).udp_sessions_current == old(self)@.sessions.len() ==>
                final(metrics).udp_sessions_current == final(self)@.sessions.len(),
            final(self)@ == (UdpView { sessions: live(old(self)@.sessions, now), ..old(self)@ }),
            key_views(gone@) == stale_keys(old(self)@.sessions, now),
            gone@.len() + final(self)@.sessions.len() == old(self)@.sessions.len(),
            *final(metrics) == (Metrics {
                udp_sessions_current: old(metrics).udp_sessions_current.wrapping_sub(
                    gone@.len() as u64,
                ),
                ..*old(metrics)
            }),
    {
        let ghost before = self@;
        let mut book = self.take_book();
        let gone = book.drop_stale(now);
        proof {
            lemma_live_len(before.sessions, now);
            assert forall|o: Seq<u8>| #[trigger] owned_by(book.views(), o)
                <= before.max_per_ip by {
                assert(owned_by(before.sessions, o) <= before.max_per_ip);
            }
        }
        self.book = book;
        metrics.udp_sessions_current = metrics.udp_sessions_current.wrapping_sub(
            gone.len() as u64,
        );
        gone
    }
}

/// Owners and ids of sessions, as octets and numbers.
pub open spec fn key_views(s: Seq<(IpAddr, u32)>) -> Seq<(Seq<u8>, u32)> {
    Seq::new(s.len(), |i: int| (s[i].0@, s[i].1))
}

/// Owners and ids are seen as they are, in their order.
pub proof fn law_keys_are_seen_as_they_are(s: Seq<(IpAddr, u32)>, i: int)
    requires
        0 <= i < s.len(),
    ensures
        key_views(s).len() == s.len(),
        key_views(s)[i].0 == s[i].0@,
        key_views(s)[i].1 == s[i].1,
{
}

proof fn lemma_live_len(s: Seq<SessionView>, now: u64)
    ensures
        live(s, now).len() + stale_keys(s, now).len() == s.len(),
    decreases s.len(),
{
    if s.len() > 0 {
        lemma_live_len(s.drop_last(), now);
    }
}

proof fn lemma_push_contains(s: Seq<SessionView>, x: SessionView, e: SessionView)
    ensures
        s.push(x).contains(e) == (s.contains(e) || x == e),
{
    if s.contains(e) {
        let i = choose|i: int| 0 <= i < s.len() && s[i] == e;
        assert(s.push(x)[i] == e);
    }
    if x == e {
        assert(s.push(x)[s.len() as int] == e);
    }
    if s.push(x).contains(e) && x != e {
        let i = choose|i: int| 0 <= i < s.push(x).len() && s.push(x)[i] == e;
        assert(s[i] == e);
    }
}

proof fn lemma_split_last(s: Seq<SessionView>)
    requires
        s.len() > 0,
    ensures
        s == s.drop_last().push(s.last()),
{
    assert(s =~= s.drop_last().push(s.last()));
}

/// The sweep removes exactly the sessions that have been quiet for too long.
pub proof fn law_sweep_keeps_active_sessions(s: Seq<SessionView>, now: u64, e: SessionView)
    ensures
        live(s, now).contains(e) == (s.contains(e) && !e.stale(now)),
        live(s, now).contains(e) == (s.contains(e) && now - e.last_active <= 120_000_000_000),
    decreases s.len(),
{
    if s.len() > 0 {
        law_sweep_keeps_active_sessions(s.drop_last(), now, e);
        lemma_split_last(s);
        lemma_push_contains(s.drop_last(), s.last(), e);
        lemma_push_contains(live(s.drop_last(), now), s.last(), e);
    }
}

/// Removing a session removes that one and no other.
pub proof fn law_remove_takes_one_session(
    s: Seq<SessionView>,
    owner: Seq<u8>,
    id: u32,
    e: SessionView,
)
    ensures
        without(s, owner, id).contains(e) == (s.contains(e) && !e.is(owner, id)),
        without(s, owner, id).contains(e) == (s.contains(e) && !(e.owner == owner && e.session_id
            == id)),
    decreases s.len(),
{
    if s.len() > 0 {
        law_remove_takes_one_session(s.drop_last(), owner, id, e);
        lemma_split_last(s);
        lemma_push_contains(s.drop_last(), s.last(), e);
        lemma_push_contains(without(s.drop_last(), owner, id), s.last(), e);
    }
}

/// A session is found by its owner and its id, and by nothing less.
pub proof fn law_session_found_by_owner_and_id(s: Seq<SessionView>, owner: Seq<u8>, id: u32)
    ensures
        has_session(s, owner, id) <==> exists|i: int|
            0 <= i < s.len() && (#[trigger] s[i]).owner == owner && s[i].session_id == id,
{
    if has_session(s, owner, id) {
        let i = choose|i: int| 0 <= i < s.len() && (#[trigger] s[i]).is(owner, id);
        assert(s[i].owner == owner && s[i].session_id == id);
    }
    if exists|i: int| 0 <= i < s.len() && (#[trigger] s[i]).owner == owner && s[i].session_id == id {
        let i = choose|i: int|
            0 <= i < s.len() && (#[trigger] s[i]).owner == owner && s[i].session_id == id;
        assert(s[i].is(owner, id));
    }
}

/// A session that is used is active from then on, whoever owns it; every other session stays as
/// it is, and so does the order of them all.
pub proof fn law_used_session_is_refreshed(
    s: Seq<SessionView>,
    owner: Seq<u8>,
    id: u32,
    now: u64,
    i: int,
)
    requires
        0 <= i < s.len(),
    ensures
        ({
            let t = touched(s, owner, id, now);
            &&& t.len() == s.len()
            &&& t[i].owner == s[i].owner
            &&& t[i].session_id == s[i].session_id
            &&& t[i].last_active == (if s[i].owner == owner && s[i].session_id == id {
                now
            } else {
                s[i].last_active
            })
        }),
{
}

/// A session that was used survives every sweep of the next 120 seconds, and one that was not
/// used since goes with the first sweep after them.
pub proof fn law_session_lives_while_used(
    s: Seq<SessionView>,
    owner: Seq<u8>,
    id: u32,
    used: u64,
    now: u64,
)
    requires
        has_session(s, owner, id),
    ensures
        now <= used + 120_000_000_000 ==> has_session(
            live(touched(s, owner, id, used), now),
            owner,
            id,
        ),
        now > used + 120_000_000_000 ==> !has_session(
            live(touched(s, owner, id, used), now),
            owner,
            id,
        ),
{
    let t = touched(s, owner, id, used);
    let l = live(t, now);
    let i = choose|i: int| 0 <= i < s.len() && (#[trigger] s[i]).is(owner, id);
    law_used_session_is_refreshed(s, owner, id, used, i);
    assert(t.contains(t[i]));
    law_sweep_keeps_active_sessions(t, now, t[i]);
    if now <= used + 120_000_000_000 {
        let j = choose|j: int| 0 <= j < l.len() && l[j] == t[i];
        assert(l[j].is(owner, id));
    } else if has_session(l, owner, id) {
        let j = choose|j: int| 0 <= j < l.len() && (#[trigger] l[j]).is(owner, id);
        assert(l.contains(l[j]));
        law_sweep_keeps_active_sessions(t, now, l[j]);
        let k = choose|k: int| 0 <= k < t.len() && t[k] == l[j];
        law_used_session_is_refreshed(s, owner, id, used, k);
    }
}

/// What a sweep names is what it removes: the owner and the id of each session that has been
/// quiet for more than 120 seconds, and of no other; and every session is either kept or named.
pub proof fn law_sweep_names_what_it_removes(
    s: Seq<SessionView>,
    now: u64,
    owner: Seq<u8>,
    id: u32,
)
    ensures
        stale_keys(s, now).contains((owner, id)) <==> exists|i: int|
            0 <= i < s.len() && (#[trigger] s[i]).owner == owner && s[i].session_id == id && now
                - s[i].last_active > 120_000_000_000,
        live(s, now).len() + stale_keys(s, now).len() == s.len(),
    decreases s.len(),
{
    lemma_live_len(s, now);
    if s.len() > 0 {
        let d = s.drop_last();
        law_sweep_names_what_it_removes(d, now, owner, id);
        let a = stale_keys(d, now);
        let b = stale_keys(s, now);
        let l = s.len() - 1;
        if a.contains((owner, id)) {
            let k = choose|k: int| 0 <= k < a.len() && a[k] == (owner, id);
            assert(b[k] == (owner, id));
            let i = choose|i: int|
                0 <= i < d.len() && (#[trigger] d[i]).owner == owner && d[i].session_id == id && now
                    - d[i].last_active > 120_000_000_000;
            assert(s[i] == d[i]);
        }
        if s[l].owner == owner && s[l].session_id == id && now - s[l].last_active
            > 120_000_000_000 {
            assert(b[b.len() - 1] == (owner, id));
        }
        if exists|i: int|
            0 <= i < s.len() && (#[trigger] s[i]).owner == owner && s[i].session_id == id && now
                - s[i].last_active > 120_000_000_000 {
            let i = choose|i: int|
                0 <= i < s.len() && (#[trigger] s[i]).owner == owner && s[i].session_id == id && now
                    - s[i].last_active > 120_000_000_000;
            if i < l {
                assert(d[i] == s[i]);
            }
        }
        if b.contains((owner, id)) && !a.contains((owner, id)) {
            let k = choose|k: int| 0 <= k < b.len() && b[k] == (owner, id);
            if k < a.len() {
                assert(a[k] == (owner, id));
            }
            assert(s[l].owner == owner && s[l].session_id == id);
        }
    }
}

/// The sessions counted for an address are those that it owns.
pub proof fn law_sessions_counted_per_owner(s: Seq<SessionView>, owner: Seq<u8>)
    ensures
        owned_by(s, owner) == s.filter(|e: SessionView| e.owner == owner).len(),
    decreases s.len(),
{
    reveal(Seq::filter);
    if s.len() > 0 {
        law_sessions_counted_per_owner(s.drop_last(), owner);
    }
}

/// A new session is refused exactly where the table is full or its owner has its share, and the
/// refusal says which, with the code of a client that wants too much. A table in order keeps
/// within both limits and knows every session once.
pub proof fn law_new_session_refused_when_full(t: UdpView, owner: Seq<u8>)
    ensures
        t.refusal(owner) is None <==> t.sessions.len() < t.max_sessions && t.sessions.filter(
            |e: SessionView| e.owner == owner,
        ).len() < t.max_per_ip,
        t.sessions.len() >= t.max_sessions ==> t.refusal(owner) == Some(
            ErrorView::Message(quic::coded_text(0x02, "udp session table full"@)),
        ),
        t.sessions.len() < t.max_sessions && t.refusal(owner) is Some ==> t.refusal(owner) == Some(
            ErrorView::Message(quic::coded_text(0x02, "too many udp sessions for this ip"@)),
        ),
        t.wf() ==> t.sessions.len() <= t.max_sessions && t.sessions.filter(
            |e: SessionView| e.owner == owner,
        ).len() <= t.max_per_ip,
        t.wf() ==> forall|i: int, j: int|
            0 <= i < t.sessions.len() && 0 <= j < t.sessions.len() && (
            #[trigger] t.sessions[i]).owner == (#[trigger] t.sessions[j]).owner
                && t.sessions[i].session_id == t.sessions[j].session_id ==> i == j,
{
    law_sessions_counted_per_owner(t.sessions, owner);
    if t.wf() {
        assert(owned_by(t.sessions, owner) <= t.max_per_ip);
        assert forall|i: int, j: int|
            0 <= i < t.sessions.len() && 0 <= j < t.sessions.len() && (
            #[trigger] t.sessions[i]).owner == (#[trigger] t.sessions[j]).owner
                && t.sessions[i].session_id == t.sessions[j].session_id implies i == j by {
            if i < j {
                assert(!(t.sessions[i].owner == t.sessions[j].owner && t.sessions[i].session_id
                    == t.sessions[j].session_id));
            } else if j < i {
                assert(!(t.sessions[j].owner == t.sessions[i].owner && t.sessions[j].session_id
                    == t.sessions[i].session_id));
            }
        }
    }
}

/// Whatever a client does with its own sessions, those of other addresses stay as they are.
pub proof fn law_other_owners_untouched(
    s: Seq<SessionView>,
    owner: Seq<u8>,
    id: u32,
    now: u64,
    e: SessionView,
)
    requires
        e.owner != owner,
    ensures
        touched(s, owner, id, now).contains(e) == s.contains(e),
        without(s, owner, id).contains(e) == s.contains(e),
        s.push(SessionView { owner, session_id: id, last_active: now }).contains(e)
            == s.contains(e),
{
    let t = touched(s, owner, id, now);
    if s.contains(e) {
        let i = choose|i: int| 0 <= i < s.len() && s[i] == e;
        assert(t[i] == e);
    }
    if t.contains(e) {
        let i = choose|i: int| 0 <= i < t.len() && t[i] == e;
        assert(s[i] == e);
    }
    law_remove_takes_one_session(s, owner, id, e);
    lemma_push_contains(s, SessionView { owner, session_id: id, last_active: now }, e);
}

} // verus!
