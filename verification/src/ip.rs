//! IP addresses and their textual form.

use vstd::prelude::*;

use crate::text;

verus! {

/// An IP address as its octets in network order.
#[derive(Debug, Clone, Copy, PartialEq, Eq, Hash)]
pub enum IpAddr {
    V4([u8; 4]),
    V6([u8; 16]),
}

impl View for IpAddr {
    type V = Seq<u8>;

    open spec fn view(&self) -> Seq<u8> {
        match self {
            IpAddr::V4(o) => o@,
            IpAddr::V6(o) => o@,
        }
    }
}

/// An address is seen as its octets, in their order.
pub proof fn law_ip_is_its_octets(ip: IpAddr)
    ensures
        ip matches IpAddr::V4(o) ==> ip@ == o@ && ip@.len() == 4,
        ip matches IpAddr::V6(o) ==> ip@ == o@ && ip@.len() == 16,
{
}

/// Whether `o` are the octets of an IP address.
pub open spec fn is_ip(o: Seq<u8>) -> bool {
    o.len() == 4 || o.len() == 16
}

/// The dotted decimal form of four octets.
pub open spec fn ipv4_text(o: Seq<u8>) -> Seq<char> {
    text::decimal_text(o[0] as nat) + "."@ + text::decimal_text(o[1] as nat) + "."@
        + text::decimal_text(o[2] as nat) + "."@ + text::decimal_text(o[3] as nat)
}

/// The sixteen-bit groups of sixteen octets.
pub open spec fn groups(o: Seq<u8>) -> Seq<u16> {
    Seq::new(8, |i: int| (o[2 * i] * 256 + o[2 * i + 1]) as u16)
}

/// The number of zero groups in a row from group `i` on.
pub open spec fn zero_run(g: Seq<u16>, i: int) -> int
    decreases g.len() - i,
{
    if 0 <= i < g.len() && g[i] == 0 {
        1 + zero_run(g, i + 1)
    } else {
        0
    }
}

/// Start and length of the longest run of zero groups that starts before group `n`, the
/// first one if several are as long.
pub open spec fn longest_zero_run(g: Seq<u16>, n: nat) -> (int, int)
    decreases n,
{
    if n == 0 {
        (0, 0)
    } else {
        let best = longest_zero_run(g, (n - 1) as nat);
        if zero_run(g, n - 1) > best.1 {
            (n - 1, zero_run(g, n - 1))
        } else {
            best
        }
    }
}

/// Groups in hexadecimal, separated by colons.
pub open spec fn groups_text(g: Seq<u16>) -> Seq<char>
    decreases g.len(),
{
    if g.len() == 0 {
        Seq::empty()
    } else if g.len() == 1 {
        text::number_text(g[0] as nat, 16)
    } else {
        groups_text(g.drop_last()) + ":"@ + text::number_text(g.last() as nat, 16)
    }
}

/// Whether the octets are an IPv4 address mapped into IPv6.
pub open spec fn is_ipv4_mapped(o: Seq<u8>) -> bool {
    &&& forall|i: int| 0 <= i < 10 ==> o[i] == 0
    &&& o[10] == 0xff
    &&& o[11] == 0xff
}

/// The textual form of sixteen octets: a mapped IPv4 address shows as such; otherwise the
/// longest run of two or more zero groups shows as a double colon.
pub open spec fn ipv6_text(o: Seq<u8>) -> Seq<char> {
    if is_ipv4_mapped(o) {
        "::ffff:"@ + ipv4_text(o.subrange(12, 16))
    } else {
        let g = groups(o);
        let (start, len) = longest_zero_run(g, 8);
        if len > 1 {
            groups_text(g.take(start)) + "::"@ + groups_text(g.skip(start + len))
        } else {
            groups_text(g)
        }
    }
}

/// The textual form of an IP address.
pub open spec fn ip_text(o: Seq<u8>) -> Seq<char> {
    if o.len() == 4 {
        ipv4_text(o)
    } else {
        ipv6_text(o)
    }
}

/// An IPv4 address is its four octets in decimal digits, with dots between them; an IPv6 address
/// that stands for one shows it behind a fixed beginning.
pub proof fn law_ipv4_text(o: Seq<u8>)
    ensures
        o.len() == 4 ==> ip_text(o) == text::decimal_text(o[0] as nat) + seq!['.']
            + text::decimal_text(o[1] as nat) + seq!['.'] + text::decimal_text(o[2] as nat)
            + seq!['.'] + text::decimal_text(o[3] as nat),
        o.len() == 16 && o[10] == 0xff && o[11] == 0xff && (forall|i: int|
            0 <= i < 10 ==> o[i] == 0) ==> ip_text(o) == seq![':', ':', 'f', 'f', 'f', 'f', ':']
            + ip_text(seq![o[12], o[13], o[14], o[15]]),
        is_ip(o) <==> o.len() == 4 || o.len() == 16,
{
    reveal_strlit(".");
    reveal_strlit("::ffff:");
    assert("."@ =~= seq!['.']);
    assert("::ffff:"@ =~= seq![':', ':', 'f', 'f', 'f', 'f', ':']);
    if o.len() == 16 {
        assert(o.subrange(12, 16) =~= seq![o[12], o[13], o[14], o[15]]);
    }
}

proof fn lemma_zero_run(g: Seq<u16>, i: int)
    requires
        0 <= i <= g.len(),
    ensures
        0 <= zero_run(g, i) <= g.len() - i,
        forall|k: int| i <= k < i + zero_run(g, i) ==> #[trigger] g[k] == 0,
        i + zero_run(g, i) < g.len() ==> g[i + zero_run(g, i)] != 0,
    decreases g.len() - i,
{
    if i < g.len() && g[i] == 0 {
        lemma_zero_run(g, i + 1);
    }
}

proof fn lemma_longest_zero_run(g: Seq<u16>, n: nat)
    requires
        n <= g.len(),
    ensures
        ({
            let (a, l) = longest_zero_run(g, n);
            &&& 0 <= a <= n
            &&& 0 <= l
            &&& a + l <= g.len()
            &&& forall|k: int| a <= k < a + l ==> #[trigger] g[k] == 0
            &&& forall|i: int| 0 <= i < n ==> #[trigger] zero_run(g, i) <= l
            &&& forall|i: int| 0 <= i < a ==> #[trigger] zero_run(g, i) < l
        }),
    decreases n,
{
    if n > 0 {
        lemma_longest_zero_run(g, (n - 1) as nat);
        lemma_zero_run(g, n - 1);
    }
}

/// What shows as a double colon is the longest run of zero groups, the first if several are as
/// long: all of it is zero, no run of zeros is longer, and none that is as long begins before.
pub proof fn law_double_colon(g: Seq<u16>, from: int, len: int)
    requires
        0 <= from,
        0 < len,
        from + len <= g.len(),
        forall|k: int| from <= k < from + len ==> #[trigger] g[k] == 0,
    ensures
        ({
            let (a, l) = longest_zero_run(g, g.len());
            &&& 0 <= a
            &&& a + l <= g.len()
            &&& forall|k: int| a <= k < a + l ==> #[trigger] g[k] == 0
            &&& len <= l
            &&& len == l ==> a <= from
        }),
{
    lemma_longest_zero_run(g, g.len());
    lemma_zero_run(g, from);
    let z = zero_run(g, from);
    if z < len {
        assert(g[from + z] == 0);
    }
}

/// Groups are written in hexadecimal digits with a colon between any two; a group is two octets,
/// the higher one first.
pub proof fn law_groups_text(g: Seq<u16>, h: Seq<u16>, o: Seq<u8>, i: int)
    requires
        g.len() > 0,
        h.len() > 0,
        0 <= i < 8,
    ensures
        groups_text(g + h) == groups_text(g) + seq![':'] + groups_text(h),
        groups_text(seq![g[0]]) == text::number_text(g[0] as nat, 16),
        groups_text(Seq::empty()) == Seq::<char>::empty(),
        groups(o).len() == 8,
        groups(o)[i] == o[2 * i] * 256 + o[2 * i + 1],
    decreases h.len(),
{
    reveal_strlit(":");
    assert(":"@ =~= seq![':']);
    assert((g + h).drop_last() =~= g + h.drop_last());
    if h.len() == 1 {
        assert(g + h.drop_last() =~= g);
    } else {
        law_groups_text(g, h.drop_last(), o, i);
        assert(groups_text(g + h) =~= groups_text(g) + seq![':'] + groups_text(h));
    }
}

/// An IPv6 address that does not stand for an IPv4 address is its eight groups; where two or more
/// zero groups follow each other, the longest run of them is left out and a double colon shows
/// where it was.
pub proof fn law_ipv6_text(o: Seq<u8>)
    requires
        o.len() == 16,
        !(o[10] == 0xff && o[11] == 0xff && (forall|i: int| 0 <= i < 10 ==> o[i] == 0)),
    ensures
        ({
            let g = groups(o);
            let (a, l) = longest_zero_run(g, g.len());
            &&& l <= 1 ==> ip_text(o) == groups_text(g)
            &&& l > 1 ==> ip_text(o) == groups_text(g.take(a)) + seq![':', ':'] + groups_text(
                g.skip(a + l),
            )
        }),
{
    reveal_strlit("::");
    assert("::"@ =~= seq![':', ':']);
}

/// Whether two addresses are the same.
pub fn same_ip(a: &IpAddr, b: &IpAddr) -> (r: bool)
    ensures
        r == (a@ == b@),
{
    match (a, b) {
        (IpAddr::V4(x), IpAddr::V4(y)) => same_octets(x.as_slice(), y.as_slice()),
        (IpAddr::V6(x), IpAddr::V6(y)) => same_octets(x.as_slice(), y.as_slice()),
        _ => {
            assert(a@.len() != b@.len());
            false
        },
    }
}

fn same_octets(x: &[u8], y: &[u8]) -> (r: bool)
    requires
        x@.len() == y@.len(),
    ensures
        r == (x@ == y@),
{
    let mut i: usize = 0;
    while i < x.len()
        invariant
            i <= x@.len() == y@.len(),
            forall|j: int| 0 <= j < i ==> x@[j] == y@[j],
        decreases x@.len() - i,
    {
        if x[i] != y[i] {
            return false;
        }
        i = i + 1;
    }
    assert(x@ =~= y@);
    true
}

fn put_ipv4(s: &mut String, o: &[u8])
    requires
        o@.len() == 4,
    ensures
        final(s)@ == old(s)@ + ipv4_text(o@),
{
    let ghost before = s@;
    text::put_decimal(s, o[0] as u64);
    text::put_str(s, ".");
    text::put_decimal(s, o[1] as u64);
    text::put_str(s, ".");
    text::put_decimal(s, o[2] as u64);
    text::put_str(s, ".");
    text::put_decimal(s, o[3] as u64);
    assert(s@ =~= before + ipv4_text(o@));
}

fn put_groups(s: &mut String, g: &[u16])
    ensures
        final(s)@ == old(s)@ + groups_text(g@),
{
    let ghost before = s@;
    let mut i: usize = 0;
    while i < g.len()
        invariant
            i <= g@.len(),
            s@ == before + groups_text(g@.take(i as int)),
        decreases g@.len() - i,
    {
        proof {
            assert(g@.take(i as int + 1).drop_last() =~= g@.take(i as int));
            assert(i == 0 ==> g@.take(0) =~= Seq::empty());
        }
        let ghost mid = s@;
        if i > 0 {
            text::put_str(s, ":");
        }
        text::put_number(s, g[i] as u64, 16);
        i = i + 1;
        assert(s@ =~= before + groups_text(g@.take(i as int)));
    }
    assert(g@.take(i as int) =~= g@);
}

fn count_zero_run(g: &[u16], i: usize) -> (n: usize)
    requires
        i <= g@.len(),
    ensures
        n == zero_run(g@, i as int),
        i + n <= g@.len(),
    decreases g@.len() - i,
{
    if i < g.len() && g[i] == 0 {
        1 + count_zero_run(g, i + 1)
    } else {
        0
    }
}

fn find_longest_zero_run(g: &[u16]) -> (r: (usize, usize))
    ensures
        (r.0 as int, r.1 as int) == longest_zero_run(g@, g@.len()),
        r.0 + r.1 <= g@.len(),
{
    let mut start: usize = 0;
    let mut len: usize = 0;
    let mut i: usize = 0;
    while i < g.len()
        invariant
            i <= g@.len(),
            (start as int, len as int) == longest_zero_run(g@, i as nat),
            start + len <= g@.len(),
        decreases g@.len() - i,
    {
        let n: usize = count_zero_run(g, i);
        if n > len {
            start = i;
            len = n;
        }
        i = i + 1;
    }
    (start, len)
}

fn is_mapped(o: &[u8; 16]) -> (r: bool)
    ensures
        r == is_ipv4_mapped(o@),
{
    let mut i: usize = 0;
    while i < 10
        invariant
            i <= 10,
            forall|j: int| 0 <= j < i ==> o@[j] == 0,
        decreases 10 - i,
    {
        if o[i] != 0 {
            return false;
        }
        i = i + 1;
    }
    o[10] == 0xff && o[11] == 0xff
}

fn put_ipv6(s: &mut String, o: &[u8; 16])
    ensures
        final(s)@ == old(s)@ + ipv6_text(o@),
{
    let ghost before = s@;
    if is_mapped(o) {
        text::put_str(s, "::ffff:");
        let tail: [u8; 4] = [o[12], o[13], o[14], o[15]];
        assert(tail@ =~= o@.subrange(12, 16));
        put_ipv4(s, tail.as_slice());
        assert(s@ =~= before + ipv6_text(o@));
        return ;
    }
    let mut g: Vec<u16> = Vec::new();
    let mut i: usize = 0;
    while i < 8
        invariant
            i <= 8,
            g@.len() == i,
            forall|j: int| 0 <= j < i ==> g@[j] == groups(o@)[j],
        decreases 8 - i,
    {
        g.push(o[2 * i] as u16 * 256 + o[2 * i + 1] as u16);
        i = i + 1;
    }
    assert(g@ =~= groups(o@));
    let (start, len) = find_longest_zero_run(g.as_slice());
    if len > 1 {
        let n: usize = g.len();
        let head = vstd::slice::slice_subrange(g.as_slice(), 0, start);
        assert(head@ =~= g@.take(start as int));
        put_groups(s, head);
        text::put_str(s, "::");
        let tail = vstd::slice::slice_subrange(g.as_slice(), start + len, n);
        assert(tail@ =~= g@.skip(start + len));
        put_groups(s, tail);
    } else {
        put_groups(s, g.as_slice());
    }
    assert(s@ =~= before + ipv6_text(o@));
}

/// Appends the textual form of `ip` to `s`.
pub fn put_ip(s: &mut String, ip: &IpAddr)
    ensures
        final(s)@ == old(s)@ + ip_text(ip@),
{
    match ip {
        IpAddr::V4(o) => put_ipv4(s, o.as_slice()),
        IpAddr::V6(o) => put_ipv6(s, o),
    }
}

} // verus!
