//! Packets that are too large for one datagram of the transport travel in fragments.

use vstd::prelude::*;

use crate::address;
use crate::bytes;
use crate::error::{Error, ErrorView, Result};
use crate::message;
use crate::message::{Datagram, DatagramView};

verus! {

/// The most fragments that a packet can be cut into.
pub const MAX_FRAGMENTS: usize = 255;

/// The bytes that a datagram takes beside its payload.
pub open spec fn header_len(d: DatagramView) -> nat {
    8 + address::address_bytes(d.address).len()
}

/// Whether the datagram fits into `limit` bytes.
pub open spec fn fits_limit(d: DatagramView, limit: nat) -> bool {
    header_len(d) + d.payload.len() <= limit
}

/// The number of pieces of at most `chunk` bytes that `len` bytes make.
pub open spec fn piece_count(len: nat, chunk: nat) -> nat {
    ((len + chunk - 1) / chunk as int) as nat
}

/// Where the piece `i` ends.
pub open spec fn piece_end(len: nat, chunk: nat, i: int) -> int {
    if (i + 1) * chunk <= len {
        (i + 1) * chunk
    } else {
        len as int
    }
}

/// The fragment `i` of the packet `d`, if its pieces have `chunk` bytes.
pub open spec fn fragment_at(d: DatagramView, packet_id: u16, chunk: nat, i: int) -> DatagramView {
    DatagramView {
        packet_id,
        frag_id: i as u8,
        frag_count: piece_count(d.payload.len(), chunk) as u8,
        payload: d.payload.subrange(i * chunk, piece_end(d.payload.len(), chunk, i)),
        ..d
    }
}

/// The fragments of the packet `d`, if its pieces have `chunk` bytes.
pub open spec fn fragments(d: DatagramView, packet_id: u16, chunk: nat) -> Seq<DatagramView> {
    Seq::new(
        piece_count(d.payload.len(), chunk),
        |i: int| fragment_at(d, packet_id, chunk, i),
    )
}

/// What is sent for the packet `d` over a transport that takes `limit` bytes at a time: the
/// packet itself if it fits, else its fragments, if there are not too many.
pub open spec fn cut(d: DatagramView, packet_id: u16, limit: nat) -> Option<Seq<DatagramView>> {
    if fits_limit(d, limit) {
        Some(seq![d])
    } else if d.frag_count > 1 || limit <= header_len(d) {
        None
    } else {
        let chunk = (limit - header_len(d)) as nat;
        if piece_count(d.payload.len(), chunk) > MAX_FRAGMENTS {
            None
        } else {
            Some(fragments(d, packet_id, chunk))
        }
    }
}

proof fn lemma_piece_count(len: nat, chunk: nat)
    requires
        chunk > 0,
        len > 0,
    ensures
        piece_count(len, chunk) >= 1,
        (piece_count(len, chunk) - 1) * chunk < len,
        len <= piece_count(len, chunk) * chunk,
        len > chunk ==> piece_count(len, chunk) >= 2,
{
    let n = piece_count(len, chunk) as int;
    let c = chunk as int;
    let x = len + chunk - 1;
    vstd::arithmetic::div_mod::lemma_fundamental_div_mod(x, c);
    vstd::arithmetic::div_mod::lemma_mod_bound(x, c);
    assert(n == x / c) by {
        vstd::arithmetic::div_mod::lemma_div_pos_is_pos(x, c);
    }
    assert(c * n == n * c) by (nonlinear_arith);
    assert((n - 1) * c == n * c - c) by (nonlinear_arith);
    if n < 1 {
        assert(n * c <= 0) by (nonlinear_arith)
            requires
                n < 1,
                c > 0,
        ;
    }
    if len > chunk && n < 2 {
        assert(n * c <= c) by (nonlinear_arith)
            requires
                n < 2,
                c > 0,
        ;
    }
}

proof fn lemma_piece_bounds(len: nat, chunk: nat, i: int)
    requires
        chunk > 0,
        len > 0,
        0 <= i < piece_count(len, chunk),
    ensures
        0 <= i * chunk < piece_end(len, chunk, i) <= len,
        piece_end(len, chunk, i) - i * chunk <= chunk,
        i + 1 < piece_count(len, chunk) ==> piece_end(len, chunk, i) == (i + 1) * chunk,
        i + 1 == piece_count(len, chunk) ==> piece_end(len, chunk, i) == len,
{
    let n = piece_count(len, chunk) as int;
    let c = chunk as int;
    lemma_piece_count(len, chunk);
    assert((i + 1) * c == i * c + c) by (nonlinear_arith);
    assert(0 <= i * c) by (nonlinear_arith)
        requires
            0 <= i,
            c > 0,
    ;
    assert(i * c <= (n - 1) * c) by (nonlinear_arith)
        requires
            i <= n - 1,
            c > 0,
    ;
    if i + 1 < n {
        assert((i + 1) * c <= (n - 1) * c) by (nonlinear_arith)
            requires
                i + 1 <= n - 1,
                c > 0,
        ;
    }
}

/// Everything that is sent for a packet fits into the transport's datagrams.
pub proof fn law_fragments_fit(d: DatagramView, packet_id: u16, limit: nat, i: int)
    requires
        cut(d, packet_id, limit) is Some,
        0 <= i < cut(d, packet_id, limit)->0.len(),
    ensures
        message::datagram_bytes(cut(d, packet_id, limit)->0[i]).len() <= limit,
{
    let f = cut(d, packet_id, limit)->0[i];
    bytes::lemma_be_bytes_len(f.session_id as nat, 4);
    bytes::lemma_be_bytes_len(f.packet_id as nat, 2);
    if !fits_limit(d, limit) {
        let chunk = (limit - header_len(d)) as nat;
        lemma_piece_bounds(d.payload.len(), chunk, i);
    }
}

/// All fragments of a packet carry the same packet id, session and target, and each says
/// which of how many it is.
pub proof fn law_fragments_are_numbered(d: DatagramView, packet_id: u16, limit: nat, i: int)
    requires
        cut(d, packet_id, limit) is Some,
        !fits_limit(d, limit),
        0 <= i < cut(d, packet_id, limit)->0.len(),
    ensures
        ({
            let all = cut(d, packet_id, limit)->0;
            &&& 2 <= all.len() <= MAX_FRAGMENTS
            &&& all[i].packet_id == packet_id
            &&& all[i].frag_id == i
            &&& all[i].frag_count == all.len()
            &&& all[i].session_id == d.session_id
            &&& all[i].address == d.address
        }),
{
    lemma_piece_count(d.payload.len(), (limit - header_len(d)) as nat);
}

/// A packet that fits into the transport's datagrams is sent as it is. One that does not is cut,
/// unless it is a fragment itself, its header leaves no room, or more than 255 fragments would be
/// needed; every fragment but the last is as large as the transport takes.
pub proof fn law_packet_is_cut_where_needed(d: DatagramView, packet_id: u16, limit: nat, i: int)
    ensures
        ({
            let whole = message::datagram_bytes(d).len();
            let room = limit - (whole - d.payload.len());
            let r = cut(d, packet_id, limit);
            &&& whole <= limit ==> r == Some(seq![d])
            &&& whole > limit ==> (r is Some <==> d.frag_count <= 1 && room > 0 && d.payload.len()
                <= 255 * room)
            &&& whole > limit && r is Some && 0 <= i < r->0.len() - 1 ==> message::datagram_bytes(
                r->0[i],
            ).len() == limit
        }),
{
    bytes::lemma_be_bytes_len(d.session_id as nat, 4);
    bytes::lemma_be_bytes_len(d.packet_id as nat, 2);
    bytes::lemma_be_bytes_len(packet_id as nat, 2);
    let len = d.payload.len();
    if !fits_limit(d, limit) && limit > header_len(d) && d.frag_count <= 1 {
        let chunk = (limit - header_len(d)) as nat;
        let n = piece_count(len, chunk) as int;
        let c = chunk as int;
        lemma_piece_count(len, chunk);
        if n <= 255 {
            assert(n * c <= 255 * c) by (nonlinear_arith)
                requires
                    n <= 255,
                    c > 0,
            ;
            if 0 <= i < n - 1 {
                lemma_piece_bounds(len, chunk, i);
                assert((i + 1) * c - i * c == c) by (nonlinear_arith);
            }
        } else {
            assert((n - 1) * c >= 255 * c) by (nonlinear_arith)
                requires
                    n - 1 >= 255,
                    c > 0,
            ;
        }
    }
}

/// What has come in of a packet so far.
#[verifier::ext_equal]
pub struct PartialView {
    pub packet_id: u16,
    pub parts: Seq<Option<Seq<u8>>>,
}

/// Nothing of a packet with `count` fragments.
pub open spec fn no_parts(packet_id: u16, count: nat) -> PartialView {
    PartialView { packet_id, parts: Seq::new(count, |i: int| None::<Seq<u8>>) }
}

/// Whether every part has come in.
pub open spec fn all_there(parts: Seq<Option<Seq<u8>>>) -> bool {
    forall|i: int| 0 <= i < parts.len() ==> (#[trigger] parts[i]) is Some
}

/// The parts one after the other.
pub open spec fn joined(parts: Seq<Option<Seq<u8>>>) -> Seq<u8>
    decreases parts.len(),
{
    if parts.len() == 0 {
        Seq::empty()
    } else {
        joined(parts.drop_last()) + (match parts.last() {
            Some(p) => p,
            None => Seq::empty(),
        })
    }
}

/// The parts that a fragment adds to: those of its packet, or none if another packet was
/// coming in, which is given up.
pub open spec fn parts_for(state: Option<PartialView>, d: DatagramView) -> PartialView {
    if state is Some && state->0.packet_id == d.packet_id && state->0.parts.len()
        == d.frag_count {
        state->0
    } else {
        no_parts(d.packet_id, d.frag_count as nat)
    }
}

/// What has come in after the datagram `d`.
pub open spec fn state_after(state: Option<PartialView>, d: DatagramView) -> Option<PartialView> {
    if d.frag_count <= 1 || d.frag_id >= d.frag_count {
        state
    } else {
        let p = parts_for(state, d);
        if p.parts[d.frag_id as int] is Some {
            Some(p)
        } else {
            let parts = p.parts.update(d.frag_id as int, Some(d.payload));
            if all_there(parts) {
                None
            } else {
                Some(PartialView { parts, ..p })
            }
        }
    }
}

/// The packet that the datagram `d` completes, if it does. One that is not a fragment is
/// complete by itself.
pub open spec fn completed(state: Option<PartialView>, d: DatagramView) -> Option<DatagramView> {
    if d.frag_count <= 1 {
        Some(d)
    } else if d.frag_id >= d.frag_count {
        None
    } else {
        let p = parts_for(state, d);
        if p.parts[d.frag_id as int] is Some {
            None
        } else {
            let parts = p.parts.update(d.frag_id as int, Some(d.payload));
            if all_there(parts) {
                Some(DatagramView::whole(d.session_id, d.address, joined(parts)))
            } else {
                None
            }
        }
    }
}

/// What has come in after a row of datagrams.
pub open spec fn state_after_all(state: Option<PartialView>, ds: Seq<DatagramView>) -> Option<
    PartialView,
>
    decreases ds.len(),
{
    if ds.len() == 0 {
        state
    } else {
        state_after(state_after_all(state, ds.drop_last()), ds.last())
    }
}

/// Puts the fragments of the packets of one session together again. One packet can be coming
/// in at a time: a fragment of another gives it up.
pub struct Defragmenter {
    current: Option<Partial>,
}

struct Partial {
    packet_id: u16,
    parts: Vec<Option<Vec<u8>>>,
}

spec fn parts_view(s: Seq<Option<Vec<u8>>>) -> Seq<Option<Seq<u8>>> {
    Seq::new(
        s.len(),
        |i: int|
            match s[i] {
                Some(v) => Some(v@),
                None => None,
            },
    )
}

impl Partial {
    spec fn view(&self) -> PartialView {
        PartialView { packet_id: self.packet_id, parts: parts_view(self.parts@) }
    }

    fn new(packet_id: u16, count: u8) -> (p: Partial)
        ensures
            p.view() == no_parts(packet_id, count as nat),
    {
        let mut parts: Vec<Option<Vec<u8>>> = Vec::new();
        let mut i: u8 = 0;
        while i < count
            invariant
                i <= count,
                parts@.len() == i,
                forall|j: int| 0 <= j < i ==> (#[trigger] parts@[j]) is None,
            decreases count - i,
        {
            parts.push(None);
            i = i + 1;
        }
        assert(parts_view(parts@) =~= no_parts(packet_id, count as nat).parts);
        Partial { packet_id, parts }
    }

    fn complete(&self) -> (r: bool)
        ensures
            r == all_there(self.view().parts),
    {
        let mut i: usize = 0;
        while i < self.parts.len()
            invariant
                i <= self.parts@.len(),
                forall|j: int| 0 <= j < i ==> (#[trigger] self.view().parts[j]) is Some,
            decreases self.parts@.len() - i,
        {
            if self.parts[i].is_none() {
                assert(self.view().parts[i as int] is None);
                return false;
            }
            i = i + 1;
        }
        true
    }

    fn join(&self) -> (v: Vec<u8>)
        ensures
            v@ == joined(self.view().parts),
    {
        let mut v: Vec<u8> = Vec::new();
        let mut i: usize = 0;
        let ghost pv = self.view().parts;
        assert(v@ =~= joined(pv.take(0)));
        while i < self.parts.len()
            invariant
                i <= self.parts@.len(),
                pv == self.view().parts,
                v@ == joined(pv.take(i as int)),
            decreases self.parts@.len() - i,
        {
            assert(pv.take(i as int + 1).drop_last() =~= pv.take(i as int));
            let ghost before = v@;
            match &self.parts[i] {
                Some(p) => {
                    bytes::put_slice(&mut v, p.as_slice());
                },
                None => {
                    assert(before + Seq::<u8>::empty() =~= before);
                },
            }
            i = i + 1;
        }
        assert(pv.take(i as int) =~= pv);
        v
    }
}

impl View for Defragmenter {
    type V = Option<PartialView>;

    closed spec fn view(&self) -> Option<PartialView> {
        match self.current {
            Some(p) => Some(p.view()),
            None => None,
        }
    }
}

impl Defragmenter {
    /// Nothing has come in.
    pub fn new() -> (d: Self)
        ensures
            d@ == None::<PartialView>,
    {
        Defragmenter { current: None }
    }

    /// Takes in a datagram; gives the packet that it completes, if it does.
    pub fn accept(&mut self, d: Datagram) -> (r: Option<Datagram>)
        ensures
            final(self)@ == state_after(old(self)@, d@),
            match completed(old(self)@, d@) {
                Some(w) => r matches Some(rw) && rw@ == w,
                None => r is None,
            },
    {
        if d.frag_count <= 1 {
            return Some(d);
        }
        if d.frag_id >= d.frag_count {
            return None;
        }
        let ghost before = self@;
        let mut p = match self.current.take() {
            Some(p) => if p.packet_id == d.packet_id && p.parts.len() == d.frag_count as usize {
                p
            } else {
                Partial::new(d.packet_id, d.frag_count)
            },
            None => Partial::new(d.packet_id, d.frag_count),
        };
        let ghost pv = p.view();
        assert(pv == parts_for(before, d@));
        let i: usize = d.frag_id as usize;
        assert(pv.parts[i as int] is Some == p.parts@[i as int] is Some);
        if p.parts[i].is_some() {
            self.current = Some(p);
            return None;
        }
        let ghost payload = d.payload@;
        p.parts.set(i, Some(d.payload));
        assert(p.view().parts =~= pv.parts.update(i as int, Some(payload)));
        if p.complete() {
            let whole = p.join();
            Some(Datagram::new(d.session_id, d.address, whole))
        } else {
            self.current = Some(p);
            None
        }
    }
}

/// The parts of a packet after the fragments with the given numbers have come in.
spec fn parts_seen(d: DatagramView, packet_id: u16, chunk: nat, order: Seq<int>) -> Seq<
    Option<Seq<u8>>,
> {
    Seq::new(
        piece_count(d.payload.len(), chunk),
        |i: int|
            if order.contains(i) {
                Some(fragment_at(d, packet_id, chunk, i).payload)
            } else {
                None
            },
    )
}

/// The fragments with the given numbers, in that order.
pub open spec fn picked(
    d: DatagramView,
    packet_id: u16,
    chunk: nat,
    order: Seq<int>,
) -> Seq<DatagramView> {
    Seq::new(order.len(), |k: int| fragment_at(d, packet_id, chunk, order[k]))
}

/// Whether `order` names each of the numbers below `n` at most once.
pub open spec fn is_selection(order: Seq<int>, n: nat) -> bool {
    &&& order.no_duplicates()
    &&& forall|k: int| 0 <= k < order.len() ==> 0 <= #[trigger] order[k] < n
}

proof fn lemma_selection_front(order: Seq<int>, n: nat)
    requires
        is_selection(order, n),
        order.len() > 0,
    ensures
        is_selection(order.drop_last(), n),
        !order.drop_last().contains(order.last()),
        order[order.len() - 1] == order.last(),
        0 <= order.last() < n,
{
    let front = order.drop_last();
    assert(0 <= order[order.len() - 1] < n);
    assert forall|k: int| 0 <= k < front.len() implies 0 <= #[trigger] front[k] < n by {
        assert(0 <= order[k] < n);
    }
    if front.contains(order.last()) {
        let k = choose|k: int| 0 <= k < front.len() && front[k] == order.last();
        assert(order[k] == order[order.len() - 1]);
    }
}

proof fn lemma_all_seen_iff(order: Seq<int>, n: nat)
    requires
        is_selection(order, n),
    ensures
        order.len() <= n,
        (forall|i: int| 0 <= i < n ==> #[trigger] order.contains(i)) == (order.len() == n),
{
    let range = vstd::set_lib::set_int_range(0, n as int);
    let s = order.to_set();
    vstd::set_lib::lemma_int_range(0, n as int);
    order.unique_seq_to_set();
    assert forall|x: int| s.contains(x) implies range.contains(x) by {
        let k = choose|k: int| 0 <= k < order.len() && order[k] == x;
        assert(0 <= order[k] < n);
    }
    vstd::set_lib::lemma_len_subset(s, range);
    if order.len() == n {
        vstd::set_lib::lemma_subset_equality(s, range);
        assert forall|i: int| 0 <= i < n implies #[trigger] order.contains(i) by {
            assert(range.contains(i));
            assert(s.contains(i));
        }
    }
    if forall|i: int| 0 <= i < n ==> #[trigger] order.contains(i) {
        assert forall|x: int| range.contains(x) implies s.contains(x) by {
            assert(order.contains(x));
        }
        vstd::set_lib::lemma_len_subset(range, s);
    }
}

proof fn lemma_joined_prefix(d: DatagramView, packet_id: u16, chunk: nat, k: int)
    requires
        chunk > 0,
        d.payload.len() > 0,
        0 <= k <= piece_count(d.payload.len(), chunk),
    ensures
        ({
            let parts = Seq::new(
                piece_count(d.payload.len(), chunk),
                |i: int| Some(fragment_at(d, packet_id, chunk, i).payload),
            );
            let len = d.payload.len();
            joined(parts.take(k)) == d.payload.take(
                if k == 0 {
                    0
                } else {
                    piece_end(len, chunk, k - 1)
                },
            )
        }),
    decreases k,
{
    let len = d.payload.len();
    let parts = Seq::new(
        piece_count(len, chunk),
        |i: int| Some(fragment_at(d, packet_id, chunk, i).payload),
    );
    if k == 0 {
        assert(joined(parts.take(0)) =~= d.payload.take(0));
    } else {
        lemma_joined_prefix(d, packet_id, chunk, k - 1);
        lemma_piece_bounds(len, chunk, k - 1);
        if k > 1 {
            lemma_piece_bounds(len, chunk, k - 2);
        }
        assert(parts.take(k).drop_last() =~= parts.take(k - 1));
        assert(parts.take(k).last() == parts[k - 1]);
        let lo = (k - 1) * chunk;
        let hi = piece_end(len, chunk, k - 1);
        assert(k == 1 ==> lo == 0) by (nonlinear_arith)
            requires
                lo == (k - 1) * chunk,
        ;
        assert(d.payload.take(lo) + d.payload.subrange(lo, hi) =~= d.payload.take(hi));
    }
}

proof fn lemma_defragment_prefix(
    state: Option<PartialView>,
    d: DatagramView,
    packet_id: u16,
    chunk: nat,
    order: Seq<int>,
)
    requires
        chunk > 0,
        d.payload.len() > chunk,
        piece_count(d.payload.len(), chunk) <= MAX_FRAGMENTS,
        is_selection(order, piece_count(d.payload.len(), chunk)),
        0 < order.len() < piece_count(d.payload.len(), chunk),
        state is Some ==> state->0.packet_id != packet_id,
    ensures
        state_after_all(state, picked(d, packet_id, chunk, order)) == Some(
            PartialView { packet_id, parts: parts_seen(d, packet_id, chunk, order) },
        ),
        completed(
            state_after_all(state, picked(d, packet_id, chunk, order).drop_last()),
            picked(d, packet_id, chunk, order).last(),
        ) is None,
    decreases order.len(),
{
    let n = piece_count(d.payload.len(), chunk);
    let ds = picked(d, packet_id, chunk, order);
    let front = order.drop_last();
    let x = order.last();
    lemma_piece_count(d.payload.len(), chunk);
    lemma_selection_front(order, n);
    assert(ds.drop_last() =~= picked(d, packet_id, chunk, front));
    assert(ds.last() == fragment_at(d, packet_id, chunk, x));
    let before = state_after_all(state, ds.drop_last());
    let seen = parts_seen(d, packet_id, chunk, front);
    if front.len() == 0 {
        assert(ds.drop_last() =~= Seq::empty());
        assert(before == state);
        assert(no_parts(packet_id, n).parts =~= seen);
    } else {
        lemma_defragment_prefix(state, d, packet_id, chunk, front);
    }
    let p = parts_for(before, ds.last());
    assert(p.parts =~= seen);
    assert(p.packet_id == packet_id);
    let f = ds.last();
    assert(f.frag_id == x);
    let parts = p.parts.update(x, Some(f.payload));
    let after = parts_seen(d, packet_id, chunk, order);
    assert forall|i: int| 0 <= i < n implies #[trigger] parts[i] == after[i] by {
        if i == x {
            assert(order[order.len() - 1] == x);
            assert(order.contains(x));
        } else {
            if front.contains(i) {
                let k = choose|k: int| 0 <= k < front.len() && front[k] == i;
                assert(order[k] == i);
            }
            if order.contains(i) {
                let k = choose|k: int| 0 <= k < order.len() && order[k] == i;
                assert(front[k] == i);
            }
        }
    }
    assert(parts =~= after);
    lemma_all_seen_iff(order, n);
    assert(!all_there(parts)) by {
        let i = choose|i: int| 0 <= i < n && !#[trigger] order.contains(i);
        assert(after[i] is None);
    }
}

/// A packet that was cut into fragments is put together again as it was, in whatever order
/// its fragments arrive: the last one to arrive completes it, and no other does.
pub proof fn law_fragments_reassemble(
    state: Option<PartialView>,
    session_id: u32,
    target: address::AddressView,
    payload: Seq<u8>,
    packet_id: u16,
    limit: nat,
    order: Seq<int>,
)
    requires
        ({
            let d = DatagramView::whole(session_id, target, payload);
            &&& cut(d, packet_id, limit) is Some
            &&& !fits_limit(d, limit)
            &&& is_selection(order, cut(d, packet_id, limit)->0.len())
        }),
        0 < order.len(),
        state is Some ==> state->0.packet_id != packet_id,
    ensures
        ({
            let d = DatagramView::whole(session_id, target, payload);
            let all = cut(d, packet_id, limit)->0;
            let sent = Seq::new(order.len(), |k: int| all[order[k]]);
            completed(state_after_all(state, sent.drop_last()), sent.last()) == (if order.len()
                == all.len() {
                Some(d)
            } else {
                None
            })
        }),
{
    let d = DatagramView::whole(session_id, target, payload);
    let chunk = (limit - header_len(d)) as nat;
    let all = cut(d, packet_id, limit)->0;
    let n = piece_count(payload.len(), chunk);
    let sent = Seq::new(order.len(), |k: int| all[order[k]]);
    let ds = picked(d, packet_id, chunk, order);
    lemma_piece_count(payload.len(), chunk);
    assert forall|k: int| 0 <= k < order.len() implies #[trigger] sent[k] == ds[k] by {
        assert(0 <= order[k] < n);
    }
    assert(sent =~= ds);
    lemma_all_seen_iff(order, n);
    if order.len() < n {
        lemma_defragment_prefix(state, d, packet_id, chunk, order);
    } else {
        let front = order.drop_last();
        let x = order.last();
        lemma_selection_front(order, n);
        assert(ds.drop_last() =~= picked(d, packet_id, chunk, front));
        lemma_defragment_prefix(state, d, packet_id, chunk, front);
        let f = fragment_at(d, packet_id, chunk, x);
        assert(ds.last() == f);
        let seen = parts_seen(d, packet_id, chunk, front);
        let parts = seen.update(x, Some(f.payload));
        let full = Seq::new(n, |i: int| Some(fragment_at(d, packet_id, chunk, i).payload));
        assert forall|i: int| 0 <= i < n implies #[trigger] parts[i] == full[i] by {
            if i != x {
                assert(order.contains(i));
                let k = choose|k: int| 0 <= k < order.len() && order[k] == i;
                assert(front[k] == i);
            }
        }
        assert(parts =~= full);
        assert(all_there(parts));
        lemma_joined_prefix(d, packet_id, chunk, n as int);
        lemma_piece_bounds(payload.len(), chunk, n - 1);
        assert(full.take(n as int) =~= full);
        assert(payload.take(payload.len() as int) =~= payload);
    }
}

/// A packet of which a fragment is missing is given up once another packet starts: nothing
/// of it ever comes out.
pub proof fn law_incomplete_packet_discarded(state: Option<PartialView>, d: DatagramView)
    requires
        state is Some,
        d.frag_count > 1,
        d.frag_id < d.frag_count,
        d.packet_id != state->0.packet_id,
    ensures
        state_after(state, d) == state_after(None, d),
        completed(state, d) == completed(None, d),
{
}

/// A datagram that is not a fragment is complete as it is, and leaves what has come in of another
/// packet alone; a fragment beyond the number of its packet's is ignored, and so is one that has
/// come in already.
pub proof fn law_datagrams_out_of_line(state: Option<PartialView>, d: DatagramView)
    ensures
        d.frag_count <= 1 ==> completed(state, d) == Some(d) && state_after(state, d) == state,
        d.frag_count > 1 && d.frag_id >= d.frag_count ==> completed(state, d) is None
            && state_after(state, d) == state,
        d.frag_count > 1 && d.frag_id < d.frag_count && (state matches Some(p) && p.packet_id
            == d.packet_id && p.parts.len() == d.frag_count && p.parts[d.frag_id as int] is Some)
            ==> completed(state, d) is None && state_after(state, d) == state,
{
}

/// A fragment is added to what has come in of its packet, at its place. The packet is complete once
/// no place is empty, and not before: its payload is then that of all places in their order, and
/// it starts over with nothing.
pub proof fn law_fragment_is_added(p: PartialView, d: DatagramView)
    requires
        d.frag_count > 1,
        d.frag_id < d.frag_count,
        p.packet_id == d.packet_id,
        p.parts.len() == d.frag_count,
        p.parts[d.frag_id as int] is None,
    ensures
        ({
            let parts = p.parts.update(d.frag_id as int, Some(d.payload));
            let full = forall|i: int| 0 <= i < parts.len() ==> (#[trigger] parts[i]) is Some;
            &&& full <==> completed(Some(p), d) is Some
            &&& full <==> state_after(Some(p), d) is None
            &&& completed(Some(p), d) matches Some(w) ==> w.session_id == d.session_id && w.address
                == d.address && w.payload == joined(parts) && w.packet_id == 0 && w.frag_id == 0
                && w.frag_count == 1
            &&& !full ==> state_after(Some(p), d) == Some(
                PartialView { packet_id: p.packet_id, parts },
            )
        }),
{
}

/// A fragment of a packet of which nothing has come in begins it: its own place is filled and every
/// other is empty. It begins anew where the packet that was coming in has another id or another
/// number of fragments.
pub proof fn law_fragment_begins_packet(state: Option<PartialView>, d: DatagramView, i: int)
    requires
        d.frag_count > 1,
        d.frag_id < d.frag_count,
        0 <= i < d.frag_count,
        state matches Some(p) ==> p.packet_id != d.packet_id || p.parts.len() != d.frag_count,
    ensures
        completed(state, d) is None,
        state_after(state, d) matches Some(q) && q.packet_id == d.packet_id && q.parts.len()
            == d.frag_count && q.parts[i] == (if i == d.frag_id {
            Some(d.payload)
        } else {
            None
        }),
{
    let p = no_parts(d.packet_id, d.frag_count as nat);
    let parts = p.parts.update(d.frag_id as int, Some(d.payload));
    let other: int = if d.frag_id == 0 {
        1
    } else {
        0
    };
    assert(parts[other] is None);
}

/// Parts are put together in their order, and what is missing counts as nothing.
pub proof fn law_parts_are_joined_in_order(
    a: Seq<Option<Seq<u8>>>,
    b: Seq<Option<Seq<u8>>>,
    x: Seq<u8>,
)
    ensures
        joined(a + b) == joined(a) + joined(b),
        joined(seq![Some(x)]) == x,
        joined(seq![None::<Seq<u8>>]) == Seq::<u8>::empty(),
        joined(Seq::empty()) == Seq::<u8>::empty(),
    decreases b.len(),
{
    reveal_with_fuel(joined, 2);
    assert(seq![Some(x)].drop_last() =~= Seq::empty());
    assert(seq![None::<Seq<u8>>].drop_last() =~= Seq::empty());
    if b.len() == 0 {
        assert(a + b =~= a);
        assert(joined(a) + joined(b) =~= joined(a));
    } else {
        law_parts_are_joined_in_order(a, b.drop_last(), x);
        assert((a + b).drop_last() =~= a + b.drop_last());
        assert(joined(a + b) =~= joined(a) + joined(b));
    }
}

/// Cuts a packet for a transport that takes `limit` bytes at a time; one that fits is left
/// as it is.
pub fn fragment(dg: &Datagram, packet_id: u16, limit: usize) -> (r: Result<Vec<Datagram>>)
    ensures
        match cut(dg@, packet_id, limit as nat) {
            Some(s) => r matches Ok(v) && datagram_views(v@) == s,
            None => r matches Err(e) && e@ == ErrorView::InvalidData("datagram too large"@),
        },
{
    let mut addr: Vec<u8> = Vec::new();
    dg.address.encode(&mut addr);
    assert(addr@ =~= address::address_bytes(dg.address@));
    let len: usize = dg.payload.len();
    let fits = limit >= 8 && limit - 8 >= addr.len() && limit - 8 - addr.len() >= len;
    if fits {
        let mut v: Vec<Datagram> = Vec::new();
        v.push(dg.clone());
        assert(datagram_views(v@) =~= seq![dg@]);
        return Ok(v);
    }
    if dg.frag_count > 1 || limit <= 8 || limit - 8 <= addr.len() {
        return Err(Error::InvalidData("datagram too large"));
    }
    let chunk: usize = limit - 8 - addr.len();
    let full: usize = len / chunk;
    proof {
        vstd::arithmetic::div_mod::lemma_fundamental_div_mod(len as int, chunk as int);
        assert(full <= chunk * full) by (nonlinear_arith)
            requires
                chunk >= 1,
                full >= 0,
        ;
    }
    let n: usize = if len % chunk == 0 {
        full
    } else {
        full + 1
    };
    proof {
        lemma_piece_count(len as nat, chunk as nat);
        lemma_count(len as int, chunk as int);
    }
    assert(n == piece_count(len as nat, chunk as nat));
    if n > MAX_FRAGMENTS {
        return Err(Error::InvalidData("datagram too large"));
    }
    let mut v: Vec<Datagram> = Vec::new();
    let mut i: usize = 0;
    let mut start: usize = 0;
    while i < n
        invariant
            i <= n,
            n == piece_count(len as nat, chunk as nat),
            n <= MAX_FRAGMENTS,
            chunk > 0,
            0 < len == dg.payload@.len(),
            i < n ==> start == i * chunk,
            v@.len() == i,
            forall|j: int|
                0 <= j < i ==> (#[trigger] v@[j])@ == fragment_at(
                    dg@,
                    packet_id,
                    chunk as nat,
                    j,
                ),
        decreases n - i,
    {
        proof {
            lemma_piece_bounds(len as nat, chunk as nat, i as int);
            assert((i + 1) * chunk == i * chunk + chunk) by (nonlinear_arith);
        }
        let end: usize = if len - start >= chunk {
            start + chunk
        } else {
            len
        };
        let d = Datagram {
            session_id: dg.session_id,
            packet_id,
            frag_id: i as u8,
            frag_count: n as u8,
            address: dg.address.clone(),
            payload: bytes::copy_slice(vstd::slice::slice_subrange(dg.payload.as_slice(), start, end)),
        };
        assert(d@ =~= fragment_at(dg@, packet_id, chunk as nat, i as int));
        v.push(d);
        start = end;
        i = i + 1;
    }
    assert(datagram_views(v@) =~= fragments(dg@, packet_id, chunk as nat));
    Ok(v)
}

proof fn lemma_count(len: int, chunk: int)
    requires
        len > 0,
        chunk > 0,
    ensures
        piece_count(len as nat, chunk as nat) == (if len % chunk == 0 {
            len / chunk
        } else {
            len / chunk + 1
        }),
{
    let q = len / chunk;
    let r = len % chunk;
    vstd::arithmetic::div_mod::lemma_fundamental_div_mod(len, chunk);
    vstd::arithmetic::div_mod::lemma_mod_bound(len, chunk);
    let x = len + chunk - 1;
    if r == 0 {
        assert(x == q * chunk + (chunk - 1)) by (nonlinear_arith)
            requires
                x == len + chunk - 1,
                len == chunk * q + r,
                r == 0,
        ;
        vstd::arithmetic::div_mod::lemma_fundamental_div_mod_converse(x, chunk, q, chunk - 1);
    } else {
        assert(x == (q + 1) * chunk + (r - 1)) by (nonlinear_arith)
            requires
                x == len + chunk - 1,
                len == chunk * q + r,
        ;
        vstd::arithmetic::div_mod::lemma_fundamental_div_mod_converse(x, chunk, q + 1, r - 1);
    }
    vstd::arithmetic::div_mod::lemma_div_pos_is_pos(x, chunk);
}

/// Datagrams over views.
pub open spec fn datagram_views(s: Seq<Datagram>) -> Seq<DatagramView> {
    Seq::new(s.len(), |i: int| s[i]@)
}

/// Packets are seen as they are, in their order.
pub proof fn law_packets_are_seen_as_they_are(s: Seq<Datagram>, i: int)
    requires
        0 <= i < s.len(),
    ensures
        datagram_views(s).len() == s.len(),
        datagram_views(s)[i] == s[i]@,
{
}

} // verus!
