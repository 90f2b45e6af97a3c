//! Numbers and bytes as text, and small helpers on strings.

use vstd::prelude::*;
use vstd::string::*;
use vstd::utf8::*;

verus! {

/// The character of the digit `d` in bases up to sixteen, with lower-case letters.
pub open spec fn digit_char(d: nat) -> char {
    if d < 10 {
        (48 + d) as char
    } else {
        (87 + d) as char
    }
}

/// `n` written in base `base`, without leading zeros.
pub open spec fn number_text(n: nat, base: nat) -> Seq<char>
    decreases n,
{
    if base < 2 || n < base {
        seq![digit_char(n)]
    } else {
        proof {
            vstd::arithmetic::div_mod::lemma_div_decreases(n as int, base as int);
        }
        number_text(n / base, base).push(digit_char(n % base))
    }
}

/// `n` in decimal.
pub open spec fn decimal_text(n: nat) -> Seq<char> {
    number_text(n, 10)
}

/// The two hexadecimal digits of `b`.
pub open spec fn hex_pair(b: u8) -> Seq<char> {
    seq![digit_char(b as nat / 16), digit_char(b as nat % 16)]
}

/// The hexadecimal digits of `bytes`, two for each byte.
pub open spec fn hex_text(bytes: Seq<u8>) -> Seq<char>
    decreases bytes.len(),
{
    if bytes.len() == 0 {
        Seq::empty()
    } else {
        hex_text(bytes.drop_last()) + hex_pair(bytes.last())
    }
}

/// The value of a digit in bases up to sixteen.
pub open spec fn digit_value(c: char) -> int {
    if '0' <= c <= '9' {
        c as int - '0' as int
    } else {
        c as int - 'a' as int + 10
    }
}

/// The number that digits in base `base` stand for.
pub open spec fn digits_value(s: Seq<char>, base: nat) -> int
    decreases s.len(),
{
    if s.len() == 0 {
        0
    } else {
        digits_value(s.drop_last(), base) * base + digit_value(s.last())
    }
}

/// A number in digits is read back as that number. All of its characters are digits of the base,
/// the letters in lower case, and the first is no zero unless it is the only one.
pub proof fn law_number_in_digits(n: nat, base: nat)
    requires
        2 <= base <= 16,
    ensures
        digits_value(number_text(n, base), base) == n,
        number_text(n, base).len() >= 1,
        forall|i: int|
            0 <= i < number_text(n, base).len() ==> ({
                let c = #[trigger] number_text(n, base)[i];
                ('0' <= c <= '9' || 'a' <= c <= 'f') && 0 <= digit_value(c) < base
            }),
        number_text(n, base).len() > 1 ==> number_text(n, base)[0] != '0',
        decimal_text(n) == number_text(n, 10),
    decreases n,
{
    reveal_with_fuel(digits_value, 2);
    let t = number_text(n, base);
    if n < base {
        assert(t.drop_last() =~= Seq::<char>::empty());
        assert(digits_value(t, base) == 0 * base + digit_value(digit_char(n)));
        assert(0 * base == 0) by (nonlinear_arith);
    } else {
        vstd::arithmetic::div_mod::lemma_div_decreases(n as int, base as int);
        let q = n / base;
        let front = number_text(q, base);
        law_number_in_digits(q, base);
        assert(t.drop_last() =~= front);
        vstd::arithmetic::div_mod::lemma_fundamental_div_mod(n as int, base as int);
        vstd::arithmetic::div_mod::lemma_mod_bound(n as int, base as int);
        assert(q * base == base * q) by (nonlinear_arith);
        assert(q >= 1) by {
            vstd::arithmetic::div_mod::lemma_div_non_zero(n as int, base as int);
        }
        assert(t[0] == front[0]);
        if front.len() == 1 {
            assert(front[0] != '0') by {
                assert(front.drop_last() =~= Seq::<char>::empty());
                assert(digits_value(front, base) == 0 * base + digit_value(front[0]));
                assert(0 * base == 0) by (nonlinear_arith);
            }
        }
    }
}

/// Bytes in hexadecimal digits: two for each, the higher one first, the letters in lower case.
pub proof fn law_bytes_in_digits(b: Seq<u8>, i: int)
    requires
        0 <= i < b.len(),
    ensures
        hex_text(b).len() == 2 * b.len(),
        digit_value(hex_text(b)[2 * i]) == b[i] / 16,
        digit_value(hex_text(b)[2 * i + 1]) == b[i] % 16,
        ('0' <= hex_text(b)[2 * i] <= '9' || 'a' <= hex_text(b)[2 * i] <= 'f'),
        ('0' <= hex_text(b)[2 * i + 1] <= '9' || 'a' <= hex_text(b)[2 * i + 1] <= 'f'),
    decreases b.len(),
{
    let d = b.drop_last();
    lemma_hex_text_len(d);
    if i < d.len() {
        law_bytes_in_digits(d, i);
    }
}

proof fn lemma_hex_text_len(b: Seq<u8>)
    ensures
        hex_text(b).len() == 2 * b.len(),
    decreases b.len(),
{
    if b.len() > 0 {
        lemma_hex_text_len(b.drop_last());
    }
}

/// A character takes at most four bytes.
pub proof fn lemma_utf8_len(s: Seq<char>)
    ensures
        encode_utf8(s).len() <= 4 * s.len(),
    decreases s.len(),
{
    if s.len() > 0 {
        lemma_utf8_len(s.drop_first());
    }
}

/// Appends `t` to `s`.
pub fn put_str(s: &mut String, t: &str)
    ensures
        final(s)@ == old(s)@ + t@,
{
    s.append(t);
}

fn digit(d: u8) -> (c: char)
    requires
        d < 16,
    ensures
        c == digit_char(d as nat),
{
    if d < 10 {
        (48 + d) as char
    } else {
        (87 + d) as char
    }
}

/// Appends `n` in the given base to `s`.
pub fn put_number(s: &mut String, n: u64, base: u64)
    requires
        2 <= base <= 16,
    ensures
        final(s)@ == old(s)@ + number_text(n as nat, base as nat),
    decreases n,
{
    let ghost before = s@;
    if n < base {
        s.push(digit(n as u8));
        assert(s@ =~= before + number_text(n as nat, base as nat));
    } else {
        let q: u64 = n / base;
        let r: u64 = n % base;
        assert(q < n) by (nonlinear_arith)
            requires
                q == n / base,
                n >= base,
                base >= 2,
        ;
        assert(r < base) by (nonlinear_arith)
            requires
                r == n % base,
                base >= 2,
        ;
        put_number(s, q, base);
        s.push(digit(r as u8));
        assert(s@ =~= before + number_text(n as nat, base as nat));
    }
}

/// Appends `n` in decimal to `s`.
pub fn put_decimal(s: &mut String, n: u64)
    ensures
        final(s)@ == old(s)@ + decimal_text(n as nat),
{
    put_number(s, n, 10);
}

/// Appends the two hexadecimal digits of `b` to `s`.
pub fn put_hex(s: &mut String, b: u8)
    ensures
        final(s)@ == old(s)@ + hex_pair(b),
{
    let ghost before = s@;
    s.push(digit(b / 16));
    s.push(digit(b % 16));
    assert(s@ =~= before + hex_pair(b));
}

/// The characters of `s`.
pub fn chars_of(s: &str) -> (v: Vec<char>)
    ensures
        v@ == s@,
{
    let mut v: Vec<char> = Vec::new();
    for c in it: s.chars()
        invariant
            v@ == it.seq().take(it.index() as int),
            it.seq() == s@,
            it.index() == it.seq().len() ==> v@ == s@,
        ensures
            v@ == s@,
    {
        v.push(c);
        assert(v@ =~= it.seq().take(it.index() as int + 1));
    }
    v
}

/// Whether two texts have the same characters.
pub fn same_text(a: &str, b: &str) -> (r: bool)
    ensures
        r == (a@ == b@),
{
    let x = chars_of(a);
    let y = chars_of(b);
    if x.len() != y.len() {
        return false;
    }
    let mut i: usize = 0;
    while i < x.len()
        invariant
            i <= x@.len(),
            x@.len() == y@.len(),
            x@ == a@,
            y@ == b@,
            forall|j: int| 0 <= j < i ==> x@[j] == y@[j],
        decreases x@.len() - i,
    {
        if x[i] != y[i] {
            return false;
        }
        i = i + 1;
    }
    assert(x@ =~= y@);
    true
}

/// Whether `t` begins with `p`.
pub fn starts_with(t: &str, p: &str) -> (r: bool)
    ensures
        r == p@.is_prefix_of(t@),
{
    let x = chars_of(t);
    let y = chars_of(p);
    if x.len() < y.len() {
        return false;
    }
    let mut i: usize = 0;
    while i < y.len()
        invariant
            i <= y@.len() <= x@.len(),
            x@ == t@,
            y@ == p@,
            forall|j: int| 0 <= j < i ==> x@[j] == y@[j],
        decreases y@.len() - i,
    {
        if x[i] != y[i] {
            assert(t@.take(p@.len() as int)[i as int] != p@[i as int]);
            return false;
        }
        i = i + 1;
    }
    assert(p@ =~= t@.take(p@.len() as int));
    true
}

} // verus!
