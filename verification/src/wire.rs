//! The building blocks of messages: fields that are read from the front of a byte sequence.

use vstd::prelude::*;

use crate::bytes;
use crate::varint;

verus! {

/// The first byte, and what follows it.
pub open spec fn take_u8(b: Seq<u8>) -> Option<(u8, Seq<u8>)> {
    if b.len() == 0 {
        None
    } else {
        Some((b[0], b.skip(1)))
    }
}

/// The variable-length integer at the front, and what follows it.
pub open spec fn take_varint(b: Seq<u8>) -> Option<(u64, Seq<u8>)> {
    match varint::parse_varint(b) {
        Some((v, n)) => Some((v, b.skip(n as int))),
        None => None,
    }
}

/// The first `n` bytes, and what follows them.
pub open spec fn take_exact(b: Seq<u8>, n: nat) -> Option<(Seq<u8>, Seq<u8>)> {
    if b.len() < n {
        None
    } else {
        Some((b.take(n as int), b.skip(n as int)))
    }
}

/// The bytes whose number is given by the variable-length integer at the front, and what
/// follows them.
pub open spec fn take_bytes(b: Seq<u8>) -> Option<(Seq<u8>, Seq<u8>)> {
    match take_varint(b) {
        Some((n, rest)) => take_exact(rest, n as nat),
        None => None,
    }
}

/// `s` behind its length.
pub open spec fn prefixed(s: Seq<u8>) -> Seq<u8> {
    varint::varint_bytes(s.len() as u64) + s
}

/// Whether the length of `s` can be written in front of it.
pub open spec fn can_prefix(s: Seq<u8>) -> bool {
    s.len() < varint::varint_limit()
}

/// A byte written is read back, whatever follows.
pub proof fn lemma_take_u8(v: u8, rest: Seq<u8>)
    ensures
        take_u8(seq![v] + rest) == Some((v, rest)),
{
    assert((seq![v] + rest).skip(1) =~= rest);
}

/// A number written is read back, whatever follows.
pub proof fn lemma_take_varint(v: u64, rest: Seq<u8>)
    requires
        v < varint::varint_limit(),
    ensures
        take_varint(varint::varint_bytes(v) + rest) == Some((v, rest)),
{
    varint::law_varint_roundtrip(v, rest);
    varint::lemma_varint_bytes_len(v);
    assert((varint::varint_bytes(v) + rest).skip(varint::varint_len(v) as int) =~= rest);
}

/// Bytes written behind their length are read back, whatever follows.
pub proof fn lemma_take_bytes(s: Seq<u8>, rest: Seq<u8>)
    requires
        can_prefix(s),
    ensures
        take_bytes(prefixed(s) + rest) == Some((s, rest)),
{
    assert(prefixed(s) + rest =~= varint::varint_bytes(s.len() as u64) + (s + rest));
    lemma_take_varint(s.len() as u64, s + rest);
    assert((s + rest).take(s.len() as int) =~= s);
    assert((s + rest).skip(s.len() as int) =~= rest);
}

/// What is read does not depend on what follows.
pub proof fn lemma_take_more(b: Seq<u8>, more: Seq<u8>)
    ensures
        take_u8(b) matches Some((v, rest)) ==> take_u8(b + more) == Some((v, rest + more)),
        take_varint(b) matches Some((v, rest)) ==> take_varint(b + more) == Some((v, rest + more)),
        take_bytes(b) matches Some((s, rest)) ==> take_bytes(b + more) == Some((s, rest + more)),
{
    if take_u8(b) is Some {
        assert((b + more).skip(1) =~= b.skip(1) + more);
    }
    if let Some((n, used)) = varint::parse_varint(b) {
        varint::law_parse_varint_bounds(b);
        varint::law_parse_varint_prefix(b, more);
        let rest = b.skip(used as int);
        assert((b + more).skip(used as int) =~= rest + more);
        if n <= rest.len() {
            assert((rest + more).take(n as int) =~= rest.take(n as int));
            assert((rest + more).skip(n as int) =~= rest.skip(n as int) + more);
        }
    }
}

/// Bytes behind their length are as many as the number in front says: they are read exactly where
/// so many are there, and follow it directly.
pub proof fn law_bytes_behind_their_length(b: Seq<u8>, s: Seq<u8>)
    ensures
        take_bytes(b) is Some <==> (varint::parse_varint(b) matches Some((len, n)) && b.len() - n
            >= len),
        take_bytes(b) matches Some((x, rest)) ==> (varint::parse_varint(b) matches Some((len, n))
            && x.len() == len && b == b.take(n as int) + x + rest),
        prefixed(s) == varint::varint_bytes(s.len() as u64) + s,
        can_prefix(s) <==> s.len() < 0x4000_0000_0000_0000,
        take_varint(b) is Some <==> varint::parse_varint(b) is Some,
        take_varint(b) matches Some((v, rest)) ==> (varint::parse_varint(b) matches Some((w, n))
            && v == w && rest == b.skip(n as int)),
        take_u8(b) is Some <==> b.len() > 0,
        take_u8(b) matches Some((v, rest)) ==> b == seq![v] + rest,
{
    varint::law_parse_varint_bounds(b);
    if b.len() > 0 {
        assert(b =~= seq![b[0]] + b.skip(1));
    }
    if let Some((len, n)) = varint::parse_varint(b) {
        let rest = b.skip(n as int);
        if len <= rest.len() {
            assert(b =~= b.take(n as int) + rest.take(len as int) + rest.skip(len as int));
        }
    }
}

/// What a successful read leaves is shorter than what it was given.
pub proof fn lemma_take_lens(b: Seq<u8>)
    ensures
        take_u8(b) matches Some((_, rest)) ==> rest == b.skip(1) && rest.len() + 1 == b.len(),
        take_varint(b) matches Some((_, rest)) ==> rest.len() < b.len() && rest == b.skip(
            b.len() - rest.len(),
        ),
        take_bytes(b) matches Some((_, rest)) ==> rest.len() < b.len() && rest == b.skip(
            b.len() - rest.len(),
        ),
{
    varint::law_parse_varint_bounds(b);
    if let Some((n, rest)) = take_varint(b) {
        if let Some((_, rest2)) = take_exact(rest, n as nat) {
            assert(rest2 =~= b.skip(b.len() - rest2.len()));
        }
    }
}

/// Appends `s` behind its length to `buf`.
pub fn put_prefixed(buf: &mut Vec<u8>, s: &[u8])
    ensures
        final(buf)@ == old(buf)@ + prefixed(s@),
{
    let ghost before = buf@;
    varint::encode_varint(buf, s.len() as u64);
    bytes::put_slice(buf, s);
    assert(buf@ =~= before + prefixed(s@));
}

} // verus!
