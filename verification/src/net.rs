//! Network addresses as plain values, and how they are written.

use vstd::prelude::*;

use crate::number;
use crate::text;

verus! {

/// An IP address: the 32 bits of IPv4 or the 128 bits of IPv6, as a number.
#[derive(Debug, Clone, Copy, PartialEq, Eq, Structural)]
pub enum IpAddr {
    V4(u32),
    V6(u128),
}

/// An IP address with a port.
#[derive(Debug, Clone, Copy, PartialEq, Eq, Structural)]
pub struct SocketAddr {
    pub ip: IpAddr,
    pub port: u16,
}

// ---------------------------------------------------------------------------
// Order
// ---------------------------------------------------------------------------
/// IPv4 before IPv6, then by address, then by port.
pub open spec fn addr_less(a: SocketAddr, b: SocketAddr) -> bool {
    match (a.ip, b.ip) {
        (IpAddr::V4(x), IpAddr::V4(y)) => x < y || (x == y && a.port < b.port),
        (IpAddr::V4(_), IpAddr::V6(_)) => true,
        (IpAddr::V6(_), IpAddr::V4(_)) => false,
        (IpAddr::V6(x), IpAddr::V6(y)) => x < y || (x == y && a.port < b.port),
    }
}

/// Whether `a` comes before `b`.
pub fn is_addr_less(a: &SocketAddr, b: &SocketAddr) -> (r: bool)
    ensures
        r == addr_less(*a, *b),
{
    match (a.ip, b.ip) {
        (IpAddr::V4(x), IpAddr::V4(y)) => x < y || (x == y && a.port < b.port),
        (IpAddr::V4(_), IpAddr::V6(_)) => true,
        (IpAddr::V6(_), IpAddr::V4(_)) => false,
        (IpAddr::V6(x), IpAddr::V6(y)) => x < y || (x == y && a.port < b.port),
    }
}

// ---------------------------------------------------------------------------
// Text
// ---------------------------------------------------------------------------
/// Dotted decimal.
pub open spec fn v4_text(ip: u32) -> Seq<char> {
    number::decimal(ip as int / 0x100_0000) + seq!['.'] + (number::decimal((ip as int / 0x1_0000) % 0x100)
        + seq!['.'] + (number::decimal((ip as int / 0x100) % 0x100) + seq!['.'] + number::decimal(
        ip as int % 0x100,
    )))
}

/// The `n` low groups of sixteen bits of `v`, the highest first.
pub open spec fn groups_of(v: int, n: nat) -> Seq<int>
    decreases n,
{
    if n == 0 {
        Seq::empty()
    } else {
        groups_of(v / 0x1_0000, (n - 1) as nat).push(v % 0x1_0000)
    }
}

/// How many zeros follow one another in `s` from index `i` on.
pub open spec fn zeros_at(s: Seq<int>, i: int) -> int
    decreases s.len() - i,
{
    if 0 <= i < s.len() && s[i] == 0 {
        1 + zeros_at(s, i + 1)
    } else {
        0
    }
}

/// Where the longest run of zeros begins among the first `k` indices; the
/// first of several.
pub open spec fn longest_zeros(s: Seq<int>, k: int) -> int
    decreases k,
{
    if k <= 1 {
        0
    } else {
        let b = longest_zeros(s, k - 1);
        if zeros_at(s, k - 1) > zeros_at(s, b) {
            k - 1
        } else {
            b
        }
    }
}

/// The groups in hexadecimal with colons between them.
pub open spec fn hex_groups(s: Seq<int>) -> Seq<char> {
    text::join_of(Seq::new(s.len(), |i: int| number::numeral(s[i], 16)), seq![':'])
}

/// The canonical text of an IPv6 address: lower case hexadecimal groups, the
/// first longest run of two or more zero groups written `::`, and an address
/// that maps an IPv4 one with its last half dotted.
pub open spec fn v6_text(ip: u128) -> Seq<char> {
    let g = groups_of(ip as int, 8);
    let b = longest_zeros(g, 8);
    let n = zeros_at(g, b);
    if ip as int / 0x1_0000_0000 == 0xffff {
        "::ffff:"@ + v4_text((ip as int % 0x1_0000_0000) as u32)
    } else if n >= 2 {
        hex_groups(g.take(b)) + "::"@ + hex_groups(g.skip(b + n))
    } else {
        hex_groups(g)
    }
}

/// How an IP address is written.
pub open spec fn ip_text(ip: IpAddr) -> Seq<char> {
    match ip {
        IpAddr::V4(v) => v4_text(v),
        IpAddr::V6(v) => v6_text(v),
    }
}

/// How an address with a port is written: IPv6 in square brackets.
pub open spec fn addr_text(a: SocketAddr) -> Seq<char> {
    match a.ip {
        IpAddr::V4(v) => v4_text(v) + seq![':'] + number::decimal(a.port as int),
        IpAddr::V6(v) => seq!['['] + v6_text(v) + seq![']'] + seq![':'] + number::decimal(a.port as int),
    }
}

/// The text of an IPv4 address.
pub fn v4_string(ip: u32) -> (r: String)
    ensures
        r@ == v4_text(ip),
{
    let mut s = String::new();
    number::push_numeral(&mut s, (ip / 0x100_0000) as u64, 10);
    s.push('.');
    number::push_numeral(&mut s, ((ip / 0x1_0000) % 0x100) as u64, 10);
    s.push('.');
    number::push_numeral(&mut s, ((ip / 0x100) % 0x100) as u64, 10);
    s.push('.');
    number::push_numeral(&mut s, (ip % 0x100) as u64, 10);
    assert(s@ =~= v4_text(ip));
    s
}

/// The groups of an address as numbers.
pub open spec fn ints(v: Seq<u16>) -> Seq<int> {
    Seq::new(v.len(), |i: int| v[i] as int)
}

fn v6_groups(ip: u128, n: usize) -> (r: Vec<u16>)
    ensures
        ints(r@) == groups_of(ip as int, n as nat),
        r@.len() == n,
    decreases n,
{
    if n == 0 {
        let r: Vec<u16> = Vec::new();
        assert(ints(r@) =~= Seq::<int>::empty());
        r
    } else {
        let mut r = v6_groups(ip / 0x1_0000, n - 1);
        let ghost before = r@;
        r.push((ip % 0x1_0000) as u16);
        assert(ints(r@) =~= ints(before).push(ip as int % 0x1_0000));
        r
    }
}

fn zero_run(s: &Vec<u16>, i: usize) -> (r: usize)
    requires
        i <= s@.len(),
    ensures
        r == zeros_at(ints(s@), i as int),
        i + r <= s@.len(),
    decreases s@.len() - i,
{
    if i < s.len() && s[i] == 0 {
        1 + zero_run(s, i + 1)
    } else {
        0
    }
}

fn longest_zero_run(s: &Vec<u16>, k: usize) -> (r: usize)
    requires
        1 <= k <= s@.len(),
    ensures
        r == longest_zeros(ints(s@), k as int),
        r < k,
    decreases k,
{
    if k == 1 {
        0
    } else {
        let b = longest_zero_run(s, k - 1);
        if zero_run(s, k - 1) > zero_run(s, b) {
            k - 1
        } else {
            b
        }
    }
}

fn hex_of(s: &Vec<u16>, from: usize, to: usize) -> (r: String)
    requires
        from <= to <= s@.len(),
    ensures
        r@ == hex_groups(ints(s@).subrange(from as int, to as int)),
{
    let mut parts: Vec<String> = Vec::new();
    let mut i: usize = from;
    let ghost sub = ints(s@).subrange(from as int, to as int);
    while i < to
        invariant
            from <= i <= to <= s@.len(),
            sub == ints(s@).subrange(from as int, to as int),
            parts@.len() == i - from,
            forall|j: int| 0 <= j < i - from ==> (#[trigger] parts@[j])@ == number::numeral(sub[j], 16),
        decreases to - i,
    {
        let mut p = String::new();
        number::push_numeral(&mut p, s[i] as u64, 16);
        assert(p@ =~= number::numeral(s@[i as int] as int, 16));
        parts.push(p);
        i = i + 1;
    }
    let r = text::join(&parts, ":");
    proof {
        reveal_strlit(":");
        assert(":"@ =~= seq![':']);
        assert(text::texts(parts@) =~= Seq::new(sub.len(), |i: int| number::numeral(sub[i], 16)));
    }
    r
}

/// The text of an IPv6 address.
pub fn v6_string(ip: u128) -> (r: String)
    ensures
        r@ == v6_text(ip),
{
    if ip / 0x1_0000_0000 == 0xffff {
        let low = v4_string((ip % 0x1_0000_0000) as u32);
        return text::cat("::ffff:", low.as_str());
    }
    let g = v6_groups(ip, 8);
    let b = longest_zero_run(&g, 8);
    let n = zero_run(&g, b);
    let ghost gi = ints(g@);
    if n >= 2 {
        let mut s = hex_of(&g, 0, b);
        s.append("::");
        let rest = hex_of(&g, b + n, 8);
        s.append(rest.as_str());
        proof {
            assert(gi.subrange(0, b as int) =~= gi.take(b as int));
            assert(gi.subrange(b + n, 8) =~= gi.skip(b + n));
        }
        s
    } else {
        assert(gi.subrange(0, 8) =~= gi);
        hex_of(&g, 0, 8)
    }
}

/// The text of an IP address.
pub fn ip_string(ip: &IpAddr) -> (r: String)
    ensures
        r@ == ip_text(*ip),
{
    match ip {
        IpAddr::V4(v) => v4_string(*v),
        IpAddr::V6(v) => v6_string(*v),
    }
}

/// The text of an address with its port.
pub fn addr_string(a: &SocketAddr) -> (r: String)
    ensures
        r@ == addr_text(*a),
{
    match a.ip {
        IpAddr::V4(v) => {
            let mut s = v4_string(v);
            s.push(':');
            number::push_numeral(&mut s, a.port as u64, 10);
            assert(s@ =~= addr_text(*a));
            s
        },
        IpAddr::V6(v) => {
            let mut s = String::new();
            s.push('[');
            s.append(v6_string(v).as_str());
            s.push(']');
            s.push(':');
            number::push_numeral(&mut s, a.port as u64, 10);
            assert(s@ =~= addr_text(*a));
            s
        },
    }
}

// ---------------------------------------------------------------------------
// Different IPv4 addresses are written differently
// ---------------------------------------------------------------------------
proof fn lemma_decimal_prefix(x: int, y: int, sep: char, a: Seq<char>, b: Seq<char>)
    requires
        0 <= x,
        0 <= y,
        number::digit_of(sep) >= 10,
        number::decimal(x) + seq![sep] + a == number::decimal(y) + seq![sep] + b,
    ensures
        x == y,
        a == b,
{
    number::numeral_reads_back(x, 10);
    number::numeral_reads_back(y, 10);
    let p = number::decimal(x) + seq![sep] + a;
    let q = number::decimal(y) + seq![sep] + b;
    let m = number::decimal(x).len() as int;
    let n = number::decimal(y).len() as int;
    assert forall|j: int| 0 <= j < m implies p[j] != sep by {
        assert(p[j] == number::decimal(x)[j]);
        assert(number::digit_of(number::decimal(x)[j]) < 10);
    }
    assert forall|j: int| 0 <= j < n implies q[j] != sep by {
        assert(q[j] == number::decimal(y)[j]);
        assert(number::digit_of(number::decimal(y)[j]) < 10);
    }
    assert(p[m] == sep);
    assert(q[n] == sep);
    text::lemma_position(p, sep, m);
    text::lemma_position(q, sep, n);
    assert(m == n);
    assert(number::decimal(x) =~= p.take(m));
    assert(number::decimal(y) =~= q.take(n));
    assert(a =~= p.skip(m + 1));
    assert(b =~= q.skip(n + 1));
}

proof fn lemma_tail(a: Seq<char>, b: Seq<char>, c: Seq<char>, d: Seq<char>)
    ensures
        (a + b + c) + d == a + b + (c + d),
{
    assert((a + b + c) + d =~= a + b + (c + d));
}

#[verifier::opaque]
spec fn octets(x: u32) -> Seq<int> {
    seq![
        x as int / 0x100_0000,
        (x as int / 0x1_0000) % 0x100,
        (x as int / 0x100) % 0x100,
        x as int % 0x100,
    ]
}

#[verifier::opaque]
spec fn dotted(a: Seq<int>, p: int) -> Seq<char> {
    number::decimal(a[0]) + seq!['.'] + (number::decimal(a[1]) + seq!['.'] + (number::decimal(a[2])
        + seq!['.'] + (number::decimal(a[3]) + seq![':'] + number::decimal(p))))
}

proof fn lemma_v4_addr_text(x: u32, p: u16)
    ensures
        addr_text(SocketAddr { ip: IpAddr::V4(x), port: p }) == dotted(octets(x), p as int),
{
    reveal(octets);
    reveal(dotted);
    let dot = seq!['.'];
    let colon = seq![':'];
    let a = octets(x);
    let d0 = number::decimal(a[0]);
    let d1 = number::decimal(a[1]);
    let d2 = number::decimal(a[2]);
    let d3 = number::decimal(a[3]);
    let e = number::decimal(p as int);
    let t2 = d2 + dot + d3;
    let t1 = d1 + dot + t2;
    let t0 = d0 + dot + t1;
    assert(t0 == v4_text(x));
    lemma_tail(d0, dot, t1, colon);
    lemma_tail(d1, dot, t2, colon);
    lemma_tail(d2, dot, d3, colon);
    lemma_tail(d0, dot, t1 + colon, e);
    lemma_tail(d1, dot, t2 + colon, e);
    lemma_tail(d2, dot, d3 + colon, e);
}

proof fn lemma_octets(a: Seq<int>, p: int, b: Seq<int>, q: int)
    requires
        a.len() == 4,
        b.len() == 4,
        forall|i: int| 0 <= i < 4 ==> 0 <= #[trigger] a[i],
        forall|i: int| 0 <= i < 4 ==> 0 <= #[trigger] b[i],
        0 <= p,
        0 <= q,
        dotted(a, p) == dotted(b, q),
    ensures
        a[0] == b[0],
        a[1] == b[1],
        a[2] == b[2],
        a[3] == b[3],
        p == q,
{
    reveal(dotted);
    let a3 = number::decimal(a[3]) + seq![':'] + number::decimal(p);
    let a2 = number::decimal(a[2]) + seq!['.'] + a3;
    let a1 = number::decimal(a[1]) + seq!['.'] + a2;
    let b3 = number::decimal(b[3]) + seq![':'] + number::decimal(q);
    let b2 = number::decimal(b[2]) + seq!['.'] + b3;
    let b1 = number::decimal(b[1]) + seq!['.'] + b2;
    lemma_decimal_prefix(a[0], b[0], '.', a1, b1);
    lemma_decimal_prefix(a[1], b[1], '.', a2, b2);
    lemma_decimal_prefix(a[2], b[2], '.', a3, b3);
    lemma_decimal_prefix(a[3], b[3], ':', number::decimal(p), number::decimal(q));
    number::numeral_reads_back(p, 10);
    number::numeral_reads_back(q, 10);
}

proof fn lemma_octets_determine(x: int, y: int)
    requires
        0 <= x,
        0 <= y,
        x / 0x100_0000 == y / 0x100_0000,
        (x / 0x1_0000) % 0x100 == (y / 0x1_0000) % 0x100,
        (x / 0x100) % 0x100 == (y / 0x100) % 0x100,
        x % 0x100 == y % 0x100,
    ensures
        x == y,
{
    vstd::arithmetic::div_mod::lemma_div_denominator(x, 0x1_0000, 0x100);
    vstd::arithmetic::div_mod::lemma_div_denominator(y, 0x1_0000, 0x100);
    vstd::arithmetic::div_mod::lemma_div_denominator(x, 0x100, 0x100);
    vstd::arithmetic::div_mod::lemma_div_denominator(y, 0x100, 0x100);
    let a = x / 0x1_0000;
    let b = y / 0x1_0000;
    assert(a == 0x100 * (a / 0x100) + a % 0x100);
    assert(b == 0x100 * (b / 0x100) + b % 0x100);
    assert(a == b);
    let c = x / 0x100;
    let d = y / 0x100;
    assert(c == 0x100 * (c / 0x100) + c % 0x100);
    assert(d == 0x100 * (d / 0x100) + d % 0x100);
    assert(c == d);
    assert(x == 0x100 * c + x % 0x100);
    assert(y == 0x100 * d + y % 0x100);
}

/// Two IPv4 addresses that are written alike, port included, are the same.
pub proof fn v4_addr_text_is_injective(x: u32, p: u16, y: u32, q: u16)
    requires
        addr_text(SocketAddr { ip: IpAddr::V4(x), port: p }) == addr_text(
            SocketAddr { ip: IpAddr::V4(y), port: q },
        ),
    ensures
        x == y,
        p == q,
{
    let a = octets(x);
    let b = octets(y);
    assert(forall|i: int| 0 <= i < 4 ==> 0 <= #[trigger] a[i]) by {
        reveal(octets);
    }
    assert(forall|i: int| 0 <= i < 4 ==> 0 <= #[trigger] b[i]) by {
        reveal(octets);
    }
    assert(a.len() == 4 && b.len() == 4) by {
        reveal(octets);
    }
    lemma_v4_addr_text(x, p);
    lemma_v4_addr_text(y, q);
    lemma_octets(a, p as int, b, q as int);
    assert(x == y) by {
        reveal(octets);
        lemma_octets_determine(x as int, y as int);
    }
}

/// An IPv4 address is written as its four bytes in decimal, the highest first,
/// with points between them.
pub proof fn v4_is_four_decimal_bytes(a: int, b: int, c: int, d: int)
    requires
        0 <= a < 256,
        0 <= b < 256,
        0 <= c < 256,
        0 <= d < 256,
    ensures
        v4_text((a * 0x100_0000 + b * 0x1_0000 + c * 0x100 + d) as u32) == number::decimal(a)
            + seq!['.'] + number::decimal(b) + seq!['.'] + number::decimal(c) + seq!['.']
            + number::decimal(d),
{
    lemma_bytes(a, b, c, d);
    lemma_four_parts(
        number::decimal(a),
        number::decimal(b),
        number::decimal(c),
        number::decimal(d),
        seq!['.'],
    );
}

proof fn lemma_bytes(a: int, b: int, c: int, d: int)
    requires
        0 <= a < 256,
        0 <= b < 256,
        0 <= c < 256,
        0 <= d < 256,
    ensures
        ({
            let ip = (a * 0x100_0000 + b * 0x1_0000 + c * 0x100 + d) as u32 as int;
            &&& ip / 0x100_0000 == a
            &&& (ip / 0x1_0000) % 0x100 == b
            &&& (ip / 0x100) % 0x100 == c
            &&& ip % 0x100 == d
        }),
{
    let ip = a * 0x100_0000 + b * 0x1_0000 + c * 0x100 + d;
    assert(0 <= ip < 0x1_0000_0000);
    assert(ip as u32 as int == ip);
    assert(ip / 0x100 == a * 0x1_0000 + b * 0x100 + c);
    assert(ip / 0x1_0000 == a * 0x100 + b);
    assert(ip / 0x100_0000 == a);
}

proof fn lemma_four_parts(
    a: Seq<char>,
    b: Seq<char>,
    c: Seq<char>,
    d: Seq<char>,
    sep: Seq<char>,
)
    ensures
        a + sep + (b + sep + (c + sep + d)) == a + sep + b + sep + c + sep + d,
{
    assert(b + sep + (c + sep + d) =~= b + sep + c + sep + d);
    assert(a + sep + (b + sep + c + sep + d) =~= a + sep + b + sep + c + sep + d);
}

/// The number that groups of sixteen bits make up, the highest first.
pub open spec fn number_of_groups(g: Seq<int>) -> int
    decreases g.len(),
{
    if g.len() == 0 {
        0
    } else {
        number_of_groups(g.drop_last()) * 0x1_0000 + g.last()
    }
}

/// The groups of a number are those that make it up.
pub proof fn groups_read_back(g: Seq<int>)
    requires
        forall|i: int| 0 <= i < g.len() ==> 0 <= #[trigger] g[i] < 0x1_0000,
    ensures
        groups_of(number_of_groups(g), g.len()) == g,
        0 <= number_of_groups(g),
    decreases g.len(),
{
    if g.len() > 0 {
        let t = g.drop_last();
        assert forall|i: int| 0 <= i < t.len() implies 0 <= #[trigger] t[i] < 0x1_0000 by {
            assert(t[i] == g[i]);
        }
        groups_read_back(t);
        let v = number_of_groups(g);
        let h = number_of_groups(t);
        assert(0 <= g[g.len() - 1] < 0x1_0000);
        assert(v / 0x1_0000 == h);
        assert(v % 0x1_0000 == g.last());
        assert(g =~= t.push(g.last()));
    } else {
        assert(groups_of(number_of_groups(g), 0) =~= g);
    }
}

proof fn lemma_zeros(s: Seq<int>, i: int, n: int)
    requires
        0 <= i,
        0 <= n,
        i + n <= s.len(),
        forall|j: int| i <= j < i + n ==> #[trigger] s[j] == 0,
        i + n < s.len() ==> s[i + n] != 0,
    ensures
        zeros_at(s, i) == n,
    decreases n,
{
    if n > 0 {
        assert(s[i] == 0);
        lemma_zeros(s, i + 1, n - 1);
    }
}

proof fn lemma_longest(s: Seq<int>, k: int)
    requires
        1 <= k <= s.len(),
    ensures
        0 <= longest_zeros(s, k) < k,
        forall|i: int| 0 <= i < k ==> #[trigger] zeros_at(s, i) <= zeros_at(s, longest_zeros(s, k)),
        forall|i: int|
            0 <= i < longest_zeros(s, k) ==> #[trigger] zeros_at(s, i) < zeros_at(
                s,
                longest_zeros(s, k),
            ),
    decreases k,
{
    if k > 1 {
        lemma_longest(s, k - 1);
    }
}

proof fn lemma_zeros_bound(s: Seq<int>, i: int) -> (n: int)
    requires
        0 <= i <= s.len(),
    ensures
        n == zeros_at(s, i),
        0 <= n,
        i + n <= s.len(),
        forall|j: int| i <= j < i + n ==> #[trigger] s[j] == 0,
        i + n < s.len() ==> s[i + n] != 0,
    decreases s.len() - i,
{
    if i < s.len() && s[i] == 0 {
        1 + lemma_zeros_bound(s, i + 1)
    } else {
        0
    }
}

/// An IPv6 address that does not map an IPv4 one is written as its groups in
/// hexadecimal with colons between them; where two or more zeros stand together,
/// the first of the longest such runs is left out and two colons take its place.
pub proof fn v6_leaves_the_first_longest_run_out(ip: u128, g: Seq<int>, b: int, n: int)
    requires
        g.len() == 8,
        forall|i: int| 0 <= i < 8 ==> 0 <= #[trigger] g[i] < 0x1_0000,
        ip == number_of_groups(g),
        !(ip as int / 0x1_0000_0000 == 0xffff),
        0 <= b,
        2 <= n,
        b + n <= 8,
        forall|j: int| b <= j < b + n ==> #[trigger] g[j] == 0,
        forall|i: int, m: int|
            #![trigger g[i], g[m]]
            0 <= i <= m < 8 && m - i >= n ==> exists|j: int| i <= j <= m && #[trigger] g[j] != 0,
        forall|i: int, m: int|
            #![trigger g[i], g[m]]
            0 <= i < b && m == i + n - 1 ==> exists|j: int| i <= j <= m && #[trigger] g[j] != 0,
    ensures
        v6_text(ip) == hex_groups(g.take(b)) + "::"@ + hex_groups(g.skip(b + n)),
{
    groups_read_back(g);
    if b + n < 8 && g[b + n] == 0 {
        assert(g[b] == 0 && g[b + n] == 0);
        assert(exists|j: int| b <= j <= b + n && #[trigger] g[j] != 0);
    }
    lemma_zeros(g, b, n);
    lemma_longest(g, 8);
    let k = longest_zeros(g, 8);
    let z = lemma_zeros_bound(g, k);
    if k != b {
        if z > n {
            assert(g[k] == 0 && g[k + n] == 0);
            assert(exists|j: int| k <= j <= k + n && #[trigger] g[j] != 0);
        }
        assert(z == n);
        if k < b {
            assert(g[k] == 0 && g[k + n - 1] == 0);
            assert(exists|j: int| k <= j <= k + n - 1 && #[trigger] g[j] != 0);
        } else {
            assert(zeros_at(g, b) < zeros_at(g, k));
        }
    }
}

/// An IPv6 address without two zeros together is written in full.
pub proof fn v6_without_a_run_is_written_in_full(ip: u128, g: Seq<int>)
    requires
        g.len() == 8,
        forall|i: int| 0 <= i < 8 ==> 0 <= #[trigger] g[i] < 0x1_0000,
        ip == number_of_groups(g),
        forall|i: int, j: int|
            #![trigger g[i], g[j]]
            0 <= i < 8 && j == i + 1 && j < 8 ==> g[i] != 0 || g[j] != 0,
    ensures
        v6_text(ip) == hex_groups(g),
{
    groups_read_back(g);
    lemma_longest(g, 8);
    let k = longest_zeros(g, 8);
    let z = lemma_zeros_bound(g, k);
    if z >= 2 {
        assert(g[k] == 0 && g[k + 1] == 0);
    }
    if ip as int / 0x1_0000_0000 == 0xffff {
        let a = g.drop_last();
        let b = a.drop_last();
        let c = b.drop_last();
        let d = c.drop_last();
        let e = d.drop_last();
        let f = e.drop_last();
        let h = f.drop_last();
        assert(number_of_groups(g) == number_of_groups(a) * 0x1_0000 + g[7]);
        assert(number_of_groups(a) == number_of_groups(b) * 0x1_0000 + g[6]);
        assert(number_of_groups(b) == number_of_groups(c) * 0x1_0000 + g[5]);
        assert(number_of_groups(c) == number_of_groups(d) * 0x1_0000 + g[4]);
        assert(number_of_groups(d) == number_of_groups(e) * 0x1_0000 + g[3]);
        assert(number_of_groups(e) == number_of_groups(f) * 0x1_0000 + g[2]);
        assert(number_of_groups(f) == number_of_groups(h) * 0x1_0000 + g[1]);
        assert(h.drop_last() =~= Seq::<int>::empty());
        assert(number_of_groups(h) == g[0]);
        assert(number_of_groups(g) == number_of_groups(b) * 0x1_0000_0000 + g[6] * 0x1_0000
            + g[7]);
        assert(number_of_groups(b) == 0xffff);
        assert(number_of_groups(c) == 0);
        assert(g[0] == 0 && g[1] == 0);
    }
}

/// An IPv6 address that maps an IPv4 one is `::ffff:` and the text of that one.
pub proof fn v6_shows_a_mapped_address(ip: u32)
    ensures
        v6_text((0xffff_0000_0000 + ip as int) as u128) == "::ffff:"@ + v4_text(ip),
{
    let v = 0xffff_0000_0000 + ip as int;
    assert(v as u128 as int == v);
    assert(v / 0x1_0000_0000 == 0xffff);
    assert(v % 0x1_0000_0000 == ip);
}

/// An address is written as its IP address, a colon and its port; an IPv6
/// address stands in square brackets.
pub proof fn the_port_stands_last(a: SocketAddr)
    ensures
        ip_text(a.ip) == (match a.ip {
            IpAddr::V4(v) => v4_text(v),
            IpAddr::V6(v) => v6_text(v),
        }),
        a.ip is V4 ==> addr_text(a) == ip_text(a.ip) + seq![':'] + number::decimal(a.port as int),
        a.ip is V6 ==> addr_text(a) == seq!['['] + ip_text(a.ip) + seq![']', ':']
            + number::decimal(a.port as int),
{
    if a.ip is V6 {
        assert(addr_text(a) =~= seq!['['] + ip_text(a.ip) + seq![']', ':'] + number::decimal(
            a.port as int,
        ));
    }
}

/// Any two different addresses are in one order, and orders chain: IPv4 comes
/// before IPv6, a smaller address before a larger, and of one address the smaller
/// port comes first.
pub proof fn addresses_are_totally_ordered(a: SocketAddr, b: SocketAddr, c: SocketAddr)
    ensures
        !addr_less(a, a),
        addr_less(a, b) || addr_less(b, a) || a == b,
        addr_less(a, b) && addr_less(b, c) ==> addr_less(a, c),
        a.ip is V4 && b.ip is V6 ==> addr_less(a, b),
        a.ip is V4 && b.ip is V4 && a.ip->V4_0 < b.ip->V4_0 ==> addr_less(a, b),
        a.ip is V6 && b.ip is V6 && a.ip->V6_0 < b.ip->V6_0 ==> addr_less(a, b),
        a.ip == b.ip && a.port < b.port ==> addr_less(a, b),
{
}

} // verus!
