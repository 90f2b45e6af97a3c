//! Variable-length integers in the QUIC encoding (RFC 9000), limited to 62 bits.

use vstd::prelude::*;

use crate::bytes;
use crate::error::{Error, Result};

verus! {

pub const MAX_VARINT: usize = 8;

/// One past the largest value that the encoding can carry.
pub open spec fn varint_limit() -> nat {
    0x4000_0000_0000_0000
}

/// The number of bytes that the encoding of `v` takes.
pub open spec fn varint_len(v: u64) -> nat {
    if v < 0x40 {
        1
    } else if v < 0x4000 {
        2
    } else if v < 0x4000_0000 {
        4
    } else {
        8
    }
}

/// `v` with the length tag in the top two bits of its `varint_len(v)` bytes.
pub open spec fn varint_word(v: u64) -> u64 {
    if v < 0x40 {
        v
    } else if v < 0x4000 {
        v | 0x4000
    } else if v < 0x4000_0000 {
        v | 0x8000_0000
    } else {
        v | 0xc000_0000_0000_0000
    }
}

/// The encoding of `v`.
pub open spec fn varint_bytes(v: u64) -> Seq<u8> {
    bytes::be_bytes(varint_word(v) as nat, varint_len(v))
}

/// The number of bytes of an encoding that starts with `first`.
pub open spec fn varint_total(first: u8) -> nat {
    if first < 0x40 {
        1
    } else if first < 0x80 {
        2
    } else if first < 0xc0 {
        4
    } else {
        8
    }
}

/// One past the largest value that `n` bytes carry beside their two tag bits.
pub open spec fn varint_capacity(n: nat) -> nat {
    bytes::pow256(n) / 4
}

/// The value at the front of `b` and the number of bytes it takes, or nothing if `b` ends
/// too early.
pub open spec fn parse_varint(b: Seq<u8>) -> Option<(u64, nat)> {
    if b.len() == 0 || b.len() < varint_total(b[0]) {
        None
    } else {
        let n = varint_total(b[0]);
        Some(((bytes::be_nat(b.take(n as int)) % varint_capacity(n)) as u64, n))
    }
}

pub proof fn lemma_varint_bytes_len(v: u64)
    ensures
        varint_bytes(v).len() == varint_len(v),
{
    bytes::lemma_be_bytes_len(varint_word(v) as nat, varint_len(v));
}

proof fn lemma_pow256_values()
    ensures
        bytes::pow256(0) == 1,
        bytes::pow256(1) == 0x100,
        bytes::pow256(2) == 0x1_0000,
        bytes::pow256(3) == 0x100_0000,
        bytes::pow256(4) == 0x1_0000_0000,
        bytes::pow256(7) == 0x100_0000_0000_0000,
        bytes::pow256(8) == 0x1_0000_0000_0000_0000,
{
    reveal_with_fuel(bytes::pow256, 9);
}

/// The top digit of an `n`-digit number.
proof fn lemma_be_bytes_first(x: nat, n: nat)
    requires
        n > 0,
        x < bytes::pow256(n),
    ensures
        bytes::be_bytes(x, n).len() == n,
        bytes::be_bytes(x, n)[0] as nat == x / bytes::pow256((n - 1) as nat),
    decreases n,
{
    bytes::lemma_be_bytes_len(x, n);
    bytes::lemma_be_bytes_len(x / 256, (n - 1) as nat);
    if n > 1 {
        assert(x / 256 < bytes::pow256((n - 1) as nat));
        lemma_be_bytes_first(x / 256, (n - 1) as nat);
        let m = bytes::pow256((n - 2) as nat);
        assert(bytes::pow256((n - 1) as nat) == 256 * m);
        assert(m > 0) by {
            lemma_pow256_positive((n - 2) as nat);
        }
        vstd::arithmetic::div_mod::lemma_div_denominator(x as int, 256, m as int);
    } else {
        assert(bytes::pow256(0) == 1);
        assert(bytes::pow256(1) == 256 * bytes::pow256(0));
        assert(bytes::be_bytes(x, 1) =~= seq![(x % 256) as u8]) by {
            assert(bytes::be_bytes(x / 256, 0) =~= Seq::empty());
        }
    }
}

proof fn lemma_pow256_positive(n: nat)
    ensures
        bytes::pow256(n) > 0,
    decreases n,
{
    if n > 0 {
        lemma_pow256_positive((n - 1) as nat);
    }
}

/// Reading back what was written gives the value, however the buffer goes on.
pub proof fn law_varint_roundtrip(v: u64, rest: Seq<u8>)
    requires
        v < varint_limit(),
    ensures
        parse_varint(varint_bytes(v) + rest) == Some((v, varint_len(v))),
{
    lemma_varint_bytes_len(v);
    lemma_pow256_values();
    let n = varint_len(v);
    let w = varint_word(v);
    assert(v < 0x4000 ==> v | 0x4000 == v + 0x4000) by (bit_vector);
    assert(v < 0x4000_0000 ==> v | 0x8000_0000 == v + 0x8000_0000) by (bit_vector);
    assert(v < 0x4000_0000_0000_0000 ==> v | 0xc000_0000_0000_0000 == v
        + 0xc000_0000_0000_0000) by (bit_vector);
    lemma_be_bytes_first(w as nat, n);
    bytes::lemma_be_roundtrip(w as nat, n);
    let b = varint_bytes(v) + rest;
    assert(b.take(n as int) =~= varint_bytes(v));
    assert(b[0] == varint_bytes(v)[0]);
    assert(varint_total(b[0]) == n);
    if v < 0x40 {
        assert(w as nat % 0x40 == v);
    } else if v < 0x4000 {
        assert(w as nat % 0x4000 == v);
    } else if v < 0x4000_0000 {
        assert(w as nat % 0x4000_0000 == v);
    } else {
        assert(w as nat % 0x4000_0000_0000_0000 == v);
    }
}

/// How numbers are written: in the first of one, two, four and eight bytes whose bits beside the
/// top two hold them, with these two bits saying which it is.
pub proof fn law_varint_layout(v: u64)
    requires
        v < 0x4000_0000_0000_0000,
    ensures
        v < varint_limit(),
        varint_limit() == 0x4000_0000_0000_0000,
        v <= 63 ==> varint_bytes(v).len() == 1 && bytes::be_nat(varint_bytes(v)) == v,
        63 < v <= 16_383 ==> varint_bytes(v).len() == 2 && bytes::be_nat(varint_bytes(v)) == v
            + 0x4000,
        16_383 < v <= 1_073_741_823 ==> varint_bytes(v).len() == 4 && bytes::be_nat(
            varint_bytes(v),
        ) == v + 0x8000_0000,
        1_073_741_823 < v ==> varint_bytes(v).len() == 8 && bytes::be_nat(varint_bytes(v)) == v
            + 0xc000_0000_0000_0000,
        varint_len(v) == varint_bytes(v).len(),
{
    lemma_varint_bytes_len(v);
    lemma_pow256_values();
    assert(v < 0x4000 ==> v | 0x4000 == v + 0x4000) by (bit_vector);
    assert(v < 0x4000_0000 ==> v | 0x8000_0000 == v + 0x8000_0000) by (bit_vector);
    assert(v < 0x4000_0000_0000_0000 ==> v | 0xc000_0000_0000_0000 == v
        + 0xc000_0000_0000_0000) by (bit_vector);
    bytes::lemma_be_roundtrip(varint_word(v) as nat, varint_len(v));
}

/// Of a number beyond the limit the low 62 bits are written, in eight bytes.
pub proof fn law_varint_beyond_limit(v: u64)
    requires
        v >= 0x4000_0000_0000_0000,
    ensures
        varint_bytes(v).len() == 8,
        bytes::be_nat(varint_bytes(v)) == v % 0x4000_0000_0000_0000 + 0xc000_0000_0000_0000,
        varint_len(v) == 8,
{
    lemma_varint_bytes_len(v);
    lemma_pow256_values();
    assert(v | 0xc000_0000_0000_0000 == v % 0x4000_0000_0000_0000 + 0xc000_0000_0000_0000)
        by (bit_vector);
    bytes::lemma_be_roundtrip(varint_word(v) as nat, 8);
}

/// How numbers are read: the top two bits of the first byte say how many bytes there are, and the
/// other bits of all of them are the number. Nothing is read where they are not all there.
pub proof fn law_varint_reads(b: Seq<u8>)
    ensures
        b.len() == 0 ==> parse_varint(b) is None,
        b.len() > 0 ==> ({
            let tag = b[0] / 64;
            let n: nat = if tag == 0 {
                1
            } else if tag == 1 {
                2
            } else if tag == 2 {
                4
            } else {
                8
            };
            let low: nat = if tag == 0 {
                0
            } else if tag == 1 {
                0x4000
            } else if tag == 2 {
                0x8000_0000
            } else {
                0xc000_0000_0000_0000
            };
            &&& parse_varint(b) is Some <==> b.len() >= n
            &&& parse_varint(b) matches Some((v, used)) ==> used == n && bytes::be_nat(
                b.take(n as int),
            ) == v + low
        }),
{
    lemma_pow256_values();
    if b.len() > 0 && b.len() >= varint_total(b[0]) {
        let n = varint_total(b[0]);
        let p = b.take(n as int);
        let head = seq![b[0]];
        let tail = p.skip(1);
        assert(p =~= head + tail);
        bytes::law_digits_weigh_by_place(head, tail, b[0]);
        bytes::lemma_be_nat_bound(tail);
        let x = bytes::be_nat(p);
        let t = bytes::be_nat(tail);
        if b[0] < 0x40 {
            assert(x == b[0] * 1 + t && t < 1);
            assert(x % 0x40 == x);
        } else if b[0] < 0x80 {
            assert(x == b[0] * 0x100 + t && t < 0x100);
            assert(0x4000 <= x < 0x8000);
            vstd::arithmetic::div_mod::lemma_fundamental_div_mod_converse(
                x as int,
                0x4000,
                1,
                x - 0x4000,
            );
        } else if b[0] < 0xc0 {
            assert(x == b[0] * 0x100_0000 + t && t < 0x100_0000);
            assert(0x8000_0000 <= x < 0xc000_0000);
            vstd::arithmetic::div_mod::lemma_fundamental_div_mod_converse(
                x as int,
                0x4000_0000,
                2,
                x - 0x8000_0000,
            );
        } else {
            assert(x == b[0] * 0x100_0000_0000_0000 + t && t < 0x100_0000_0000_0000);
            assert(0xc000_0000_0000_0000 <= x < 0x1_0000_0000_0000_0000);
            vstd::arithmetic::div_mod::lemma_fundamental_div_mod_converse(
                x as int,
                0x4000_0000_0000_0000,
                3,
                x - 0xc000_0000_0000_0000,
            );
        }
    }
}

/// A value read is always below the limit, and at least one and at most eight of the bytes
/// given were used.
pub proof fn law_parse_varint_bounds(b: Seq<u8>)
    ensures
        parse_varint(b) matches Some((v, n)) ==> v < varint_limit() && 1 <= n <= MAX_VARINT && n
            <= b.len(),
{
    lemma_pow256_values();
}

/// What follows the encoding does not change what is read.
pub proof fn law_parse_varint_prefix(b: Seq<u8>, rest: Seq<u8>)
    requires
        parse_varint(b) is Some,
    ensures
        parse_varint(b + rest) == parse_varint(b),
{
    let n = varint_total(b[0]);
    assert((b + rest).take(n as int) =~= b.take(n as int));
}

/// Appends the encoding of `v` to `buf`.
pub fn encode_varint(buf: &mut Vec<u8>, v: u64)
    ensures
        final(buf)@ == old(buf)@ + varint_bytes(v),
{
    if v < 0x40 {
        bytes::put_be(buf, v, 1);
    } else if v < 0x4000 {
        bytes::put_be(buf, v | 0x4000, 2);
    } else if v < 0x4000_0000 {
        bytes::put_be(buf, v | 0x8000_0000, 4);
    } else {
        bytes::put_be(buf, v | 0xc000_0000_0000_0000, 8);
    }
}

/// The number of bytes that `encode_varint` appends for `v`.
pub fn encode_varint_len(v: u64) -> (n: usize)
    ensures
        n == varint_len(v),
        n == varint_bytes(v).len(),
{
    proof {
        lemma_varint_bytes_len(v);
    }
    if v < 0x40 {
        1
    } else if v < 0x4000 {
        2
    } else if v < 0x4000_0000 {
        4
    } else {
        8
    }
}

/// The number of bytes of an encoding that starts with `first`.
pub fn varint_total_len(first: u8) -> (n: usize)
    ensures
        n == varint_total(first),
{
    if first < 0x40 {
        1
    } else if first < 0x80 {
        2
    } else if first < 0xc0 {
        4
    } else {
        8
    }
}

/// Reads the value at the front of `buf`; gives it with the number of bytes it took.
pub fn decode_varint(buf: &[u8]) -> (r: Result<(u64, usize)>)
    ensures
        parse_varint(buf@) matches Some((v, n)) ==> r matches Ok((rv, rn)) && rv == v && rn == n,
        parse_varint(buf@) is None ==> r matches Err(Error::UnexpectedEof),
{
    if buf.len() == 0 {
        return Err(Error::UnexpectedEof);
    }
    let len: usize = varint_total_len(buf[0]);
    if buf.len() < len {
        return Err(Error::UnexpectedEof);
    }
    proof {
        lemma_pow256_values();
        assert(buf@.subrange(0, len as int) =~= buf@.take(len as int));
    }
    let word: u64 = bytes::get_be(&buf[0..len]);
    let v: u64 = if len == 1 {
        word % 0x40
    } else if len == 2 {
        word % 0x4000
    } else if len == 4 {
        word % 0x4000_0000
    } else {
        word % 0x4000_0000_0000_0000
    };
    Ok((v, len))
}

} // verus!
