//! Big-endian numbers and small helpers on byte buffers.

use vstd::prelude::*;

verus! {

/// The number whose big-endian digits (base 256) are `s`.
pub open spec fn be_nat(s: Seq<u8>) -> nat
    decreases s.len(),
{
    if s.len() == 0 {
        0
    } else {
        be_nat(s.drop_last()) * 256 + s.last() as nat
    }
}

/// The last `n` big-endian digits (base 256) of `x`.
pub open spec fn be_bytes(x: nat, n: nat) -> Seq<u8>
    decreases n,
{
    if n == 0 {
        Seq::empty()
    } else {
        be_bytes(x / 256, (n - 1) as nat).push((x % 256) as u8)
    }
}

/// 256 to the power `n`.
pub open spec fn pow256(n: nat) -> nat
    decreases n,
{
    if n == 0 {
        1
    } else {
        256 * pow256((n - 1) as nat)
    }
}

pub proof fn lemma_be_bytes_len(x: nat, n: nat)
    ensures
        be_bytes(x, n).len() == n,
    decreases n,
{
    if n > 0 {
        lemma_be_bytes_len(x / 256, (n - 1) as nat);
    }
}

/// Writing a number that fits in `n` digits and reading it back gives it again.
pub proof fn lemma_be_roundtrip(x: nat, n: nat)
    requires
        x < pow256(n),
    ensures
        be_nat(be_bytes(x, n)) == x,
    decreases n,
{
    lemma_be_bytes_len(x, n);
    if n > 0 {
        assert(x / 256 < pow256((n - 1) as nat));
        lemma_be_roundtrip(x / 256, (n - 1) as nat);
        let s = be_bytes(x, n);
        assert(s.drop_last() =~= be_bytes(x / 256, (n - 1) as nat));
    }
}

/// `n` digits never make a number of `256^n` or more.
pub proof fn lemma_be_nat_bound(s: Seq<u8>)
    ensures
        be_nat(s) < pow256(s.len()),
    decreases s.len(),
{
    if s.len() > 0 {
        lemma_be_nat_bound(s.drop_last());
    }
}

/// The digits of a number weigh by their place: what stands in front of `t` counts 256 times for
/// each digit of `t`, and a single digit counts as itself.
pub proof fn law_digits_weigh_by_place(s: Seq<u8>, t: Seq<u8>, d: u8)
    ensures
        be_nat(s + t) == be_nat(s) * vstd::arithmetic::power::pow(256, t.len()) + be_nat(t),
        be_nat(seq![d]) == d,
        be_nat(Seq::empty()) == 0,
        pow256(t.len()) == vstd::arithmetic::power::pow(256, t.len()),
    decreases t.len(),
{
    reveal(vstd::arithmetic::power::pow);
    reveal_with_fuel(be_nat, 2);
    assert(seq![d].drop_last() =~= Seq::<u8>::empty());
    if t.len() == 0 {
        assert(s + t =~= s);
        assert(be_nat(s) * 1 == be_nat(s));
    } else {
        let u = t.drop_last();
        law_digits_weigh_by_place(s, u, d);
        assert((s + t).drop_last() =~= s + u);
        let x = be_nat(s) as int;
        let w = vstd::arithmetic::power::pow(256, u.len());
        assert((x * w) * 256 == x * (256 * w)) by (nonlinear_arith);
    }
}

/// Writing and reading numbers undo each other: `n` digits of a number that fits are read back as
/// it, and digits that were read are written again as they were.
pub proof fn law_digits_written_and_read(x: nat, n: nat, s: Seq<u8>)
    ensures
        be_bytes(x, n).len() == n,
        x < vstd::arithmetic::power::pow(256, n) ==> be_nat(be_bytes(x, n)) == x,
        be_bytes(be_nat(s), s.len()) == s,
    decreases s.len(),
{
    lemma_be_bytes_len(x, n);
    law_digits_weigh_by_place(Seq::empty(), be_bytes(x, n), 0);
    if x < vstd::arithmetic::power::pow(256, n) {
        lemma_be_roundtrip(x, n);
    }
    if s.len() > 0 {
        law_digits_written_and_read(x, n, s.drop_last());
        assert(s.drop_last().push(s.last()) =~= s);
    } else {
        assert(s =~= Seq::empty());
    }
}

/// Appends `data` to `buf`.
pub fn put_slice(buf: &mut Vec<u8>, data: &[u8])
    ensures
        final(buf)@ == old(buf)@ + data@,
{
    let ghost before = buf@;
    buf.extend_from_slice(data);
    assert(buf@ =~= before + data@);
}

/// Appends the last `n` big-endian digits of `x` to `buf`.
pub fn put_be(buf: &mut Vec<u8>, x: u64, n: usize)
    requires
        n <= 8,
    ensures
        final(buf)@ == old(buf)@ + be_bytes(x as nat, n as nat),
    decreases n,
{
    let ghost before = buf@;
    if n > 0 {
        put_be(buf, x / 256, n - 1);
        buf.push((x % 256) as u8);
        proof {
            assert(be_bytes(x as nat, n as nat) == be_bytes(
                (x / 256) as nat,
                (n - 1) as nat,
            ).push((x % 256) as u8));
        }
    }
    assert(buf@ =~= before + be_bytes(x as nat, n as nat));
}

/// The number whose big-endian digits are `data`.
pub fn get_be(data: &[u8]) -> (x: u64)
    requires
        data@.len() <= 8,
    ensures
        x == be_nat(data@),
{
    let mut x: u64 = 0;
    let mut i: usize = 0;
    while i < data.len()
        invariant
            i <= data@.len() <= 8,
            x == be_nat(data@.take(i as int)),
        decreases data@.len() - i,
    {
        proof {
            let t = data@.take(i as int + 1);
            assert(t.drop_last() =~= data@.take(i as int));
            lemma_be_nat_bound(t);
            reveal_with_fuel(pow256, 9);
        }
        x = x * 256 + data[i] as u64;
        i = i + 1;
    }
    assert(data@.take(i as int) =~= data@);
    x
}

/// A copy of `data`.
pub fn copy_slice(data: &[u8]) -> (v: Vec<u8>)
    ensures
        v@ == data@,
{
    vstd::slice::slice_to_vec(data)
}

/// A copy of `v`.
pub fn copy_vec(v: &Vec<u8>) -> (r: Vec<u8>)
    ensures
        r@ == v@,
{
    vstd::slice::slice_to_vec(v.as_slice())
}

} // verus!
