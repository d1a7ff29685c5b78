//! Network addresses of peers (an IPv4 or IPv6 address with a port) and
//! their text form, as a socket address is written and read back.

use vstd::prelude::*;
use crate::text::{decimal, push_char, push_decimal};

verus! {

/// A socket address. An IPv4 address is held as the 32-bit number whose
/// big-endian bytes are its octets; an IPv6 address as the 128-bit number
/// whose big-endian 16-bit groups are its segments.
#[derive(Clone, Copy, PartialEq, Eq, Structural, Debug)]
pub enum NetAddr {
    V4 { ip: u32, port: u16 },
    V6 { ip: u128, port: u16, flowinfo: u32, scope_id: u32 },
}

impl NetAddr {
    /// `0.0.0.0:0`, the unspecified address.
    pub fn unspecified() -> (a: NetAddr)
        ensures
            a == (NetAddr::V4 { ip: 0, port: 0 }),
    {
        NetAddr::V4 { ip: 0, port: 0 }
    }
}

/// Octet `k` (0 = first) of an IPv4 address.
pub open spec fn octet(ip: u32, k: int) -> nat {
    if k == 0 {
        (ip / 0x100_0000) as nat
    } else if k == 1 {
        ((ip / 0x1_0000) % 0x100) as nat
    } else if k == 2 {
        ((ip / 0x100) % 0x100) as nat
    } else {
        (ip % 0x100) as nat
    }
}

/// The divisor that brings segment `k` of an IPv6 address to the low bits.
pub open spec fn segment_divisor(k: int) -> u128 {
    if k == 0 {
        0x1_0000_0000_0000_0000_0000_0000_0000u128
    } else if k == 1 {
        0x1_0000_0000_0000_0000_0000_0000u128
    } else if k == 2 {
        0x1_0000_0000_0000_0000_0000u128
    } else if k == 3 {
        0x1_0000_0000_0000_0000u128
    } else if k == 4 {
        0x1_0000_0000_0000u128
    } else if k == 5 {
        0x1_0000_0000u128
    } else if k == 6 {
        0x1_0000u128
    } else {
        1u128
    }
}

/// Segment `k` (0 = first) of an IPv6 address.
pub open spec fn segment(ip: u128, k: int) -> u16 {
    ((ip / segment_divisor(k)) % 0x1_0000) as u16
}

pub open spec fn segments(ip: u128) -> Seq<u16> {
    Seq::new(8, |k: int| segment(ip, k))
}

/// The IPv4 text `a.b.c.d`.
pub open spec fn ipv4_text(ip: u32) -> Seq<char> {
    decimal(octet(ip, 0)) + seq!['.'] + decimal(octet(ip, 1)) + seq!['.'] + decimal(
        octet(ip, 2),
    ) + seq!['.'] + decimal(octet(ip, 3))
}

pub open spec fn hex_digit_char(d: nat) -> char {
    if d < 10 {
        (48 + d) as char
    } else {
        (87 + d) as char
    }
}

/// Lower-case hexadecimal digits of `n` without leading zeros (`{:x}`).
pub open spec fn hex_text(n: nat) -> Seq<char>
    decreases n,
{
    if n < 16 {
        seq![hex_digit_char(n)]
    } else {
        hex_text(n / 16).push(hex_digit_char(n % 16))
    }
}

/// Segments written in hexadecimal and joined by `:`.
pub open spec fn join_segments(segs: Seq<u16>) -> Seq<char>
    decreases segs.len(),
{
    if segs.len() == 0 {
        seq![]
    } else if segs.len() == 1 {
        hex_text(segs[0] as nat)
    } else {
        join_segments(segs.drop_last()) + seq![':'] + hex_text(segs.last() as nat)
    }
}

/// Number of zero segments in a row from index `i`.
pub open spec fn zero_run(segs: Seq<u16>, i: int) -> int
    decreases segs.len() - i,
{
    if 0 <= i < segs.len() && segs[i] == 0 {
        1 + zero_run(segs, i + 1)
    } else {
        0
    }
}

/// The longest run of zero segments among those starting at `i` and
/// after, or `(start, len)` if none is longer; ties go to the earliest.
pub open spec fn longest_zero_run_from(segs: Seq<u16>, i: int, start: int, len: int) -> (int, int)
    decreases segs.len() - i,
{
    if i < 0 || i >= segs.len() {
        (start, len)
    } else if zero_run(segs, i) > len {
        longest_zero_run_from(segs, i + 1, i, zero_run(segs, i))
    } else {
        longest_zero_run_from(segs, i + 1, start, len)
    }
}

/// The first of the longest runs of zero segments.
pub open spec fn longest_zero_run(segs: Seq<u16>) -> (int, int) {
    longest_zero_run_from(segs, 0, 0, 0)
}

/// Whether the address is an IPv4-mapped IPv6 address (`::ffff:a.b.c.d`).
pub open spec fn is_v4_mapped(ip: u128) -> bool {
    ip / 0x1_0000_0000 == 0xffff
}

/// The IPv6 text as std writes it: `::ffff:` and the IPv4 text for a
/// mapped address; otherwise the segments in hexadecimal, the first of
/// the longest runs of two or more zero segments written as `::`.
pub open spec fn ipv6_text(ip: u128) -> Seq<char> {
    if is_v4_mapped(ip) {
        seq![':', ':', 'f', 'f', 'f', 'f', ':'] + ipv4_text((ip % 0x1_0000_0000) as u32)
    } else {
        let segs = segments(ip);
        let (start, len) = longest_zero_run(segs);
        if len > 1 {
            join_segments(segs.subrange(0, start)) + seq![':', ':'] + join_segments(
                segs.subrange(start + len, 8),
            )
        } else {
            join_segments(segs)
        }
    }
}

/// The text of a socket address: `a.b.c.d:port`, or `[ipv6]:port` with
/// `%scope` before the `]` when the scope id is not zero.
pub open spec fn addr_text(a: NetAddr) -> Seq<char> {
    match a {
        NetAddr::V4 { ip, port } => ipv4_text(ip) + seq![':'] + decimal(port as nat),
        NetAddr::V6 { ip, port, flowinfo, scope_id } => seq!['['] + ipv6_text(ip) + (if scope_id
            == 0 {
            seq![]
        } else {
            seq!['%'] + decimal(scope_id as nat)
        }) + seq![']', ':'] + decimal(port as nat),
    }
}

fn octet_of(ip: u32, k: usize) -> (o: u64)
    requires
        k < 4,
    ensures
        o == octet(ip, k as int),
        o < 256,
{
    if k == 0 {
        (ip / 0x100_0000) as u64
    } else if k == 1 {
        ((ip / 0x1_0000) % 0x100) as u64
    } else if k == 2 {
        ((ip / 0x100) % 0x100) as u64
    } else {
        (ip % 0x100) as u64
    }
}

fn push_ipv4(s: &mut String, ip: u32)
    ensures
        final(s)@ == old(s)@ + ipv4_text(ip),
{
    push_decimal(s, octet_of(ip, 0));
    push_char(s, '.');
    push_decimal(s, octet_of(ip, 1));
    push_char(s, '.');
    push_decimal(s, octet_of(ip, 2));
    push_char(s, '.');
    push_decimal(s, octet_of(ip, 3));
    assert(final(s)@ =~= old(s)@ + ipv4_text(ip));
}

fn hex_digit_of(d: u64) -> (c: char)
    requires
        d < 16,
    ensures
        c == hex_digit_char(d as nat),
{
    if d < 10 {
        (48u8 + d as u8) as char
    } else {
        (87u8 + d as u8) as char
    }
}

fn push_hex(s: &mut String, n: u64)
    ensures
        final(s)@ == old(s)@ + hex_text(n as nat),
    decreases n,
{
    if n >= 16 {
        push_hex(s, n / 16);
    }
    push_char(s, hex_digit_of(n % 16));
}

fn segment_of(ip: u128, k: usize) -> (g: u16)
    requires
        k < 8,
    ensures
        g == segment(ip, k as int),
{
    let d: u128 = if k == 0 {
        0x1_0000_0000_0000_0000_0000_0000_0000u128
    } else if k == 1 {
        0x1_0000_0000_0000_0000_0000_0000u128
    } else if k == 2 {
        0x1_0000_0000_0000_0000_0000u128
    } else if k == 3 {
        0x1_0000_0000_0000_0000u128
    } else if k == 4 {
        0x1_0000_0000_0000u128
    } else if k == 5 {
        0x1_0000_0000u128
    } else if k == 6 {
        0x1_0000u128
    } else {
        1u128
    };
    ((ip / d) % 0x1_0000) as u16
}

fn segments_of(ip: u128) -> (v: Vec<u16>)
    ensures
        v@ == segments(ip),
{
    let mut v: Vec<u16> = Vec::new();
    let mut k: usize = 0;
    while k < 8
        invariant
            k <= 8,
            v@.len() == k,
            forall|j: int| 0 <= j < k ==> v@[j] == segment(ip, j),
        decreases 8 - k,
    {
        v.push(segment_of(ip, k));
        k = k + 1;
    }
    assert(v@ =~= segments(ip));
    v
}

proof fn lemma_join_push(segs: Seq<u16>, g: u16)
    ensures
        segs.len() == 0 ==> join_segments(segs.push(g)) == hex_text(g as nat),
        segs.len() > 0 ==> join_segments(segs.push(g)) == join_segments(segs) + seq![':']
            + hex_text(g as nat),
{
    assert(segs.push(g).drop_last() =~= segs);
}

/// Appends `segs[from..to]` in hexadecimal, joined by `:`.
fn push_segments(s: &mut String, segs: &Vec<u16>, from: usize, to: usize)
    requires
        from <= to <= segs.len(),
    ensures
        final(s)@ == old(s)@ + join_segments(segs@.subrange(from as int, to as int)),
{
    let mut i = from;
    assert(segs@.subrange(from as int, from as int) =~= Seq::<u16>::empty());
    while i < to
        invariant
            from <= i <= to <= segs.len(),
            s@ == old(s)@ + join_segments(segs@.subrange(from as int, i as int)),
        decreases to - i,
    {
        let ghost before = segs@.subrange(from as int, i as int);
        if i > from {
            push_char(s, ':');
        }
        push_hex(s, segs[i] as u64);
        proof {
            assert(segs@.subrange(from as int, i + 1) =~= before.push(segs@[i as int]));
            lemma_join_push(before, segs@[i as int]);
        }
        i = i + 1;
        assert(s@ =~= old(s)@ + join_segments(segs@.subrange(from as int, i as int)));
    }
}

fn zero_run_at(segs: &Vec<u16>, i: usize) -> (r: usize)
    requires
        i <= segs.len() == 8,
    ensures
        r == zero_run(segs@, i as int),
        i + r <= 8,
{
    let mut j = i;
    while j < 8 && segs[j] == 0
        invariant
            i <= j <= 8 == segs.len(),
            forall|t: int| i <= t < j ==> segs@[t] == 0,
            zero_run(segs@, i as int) == (j - i) + zero_run(segs@, j as int),
        decreases 8 - j,
    {
        j = j + 1;
    }
    j - i
}

fn longest_zero_run_of(segs: &Vec<u16>) -> (r: (usize, usize))
    requires
        segs.len() == 8,
    ensures
        r.0 as int == longest_zero_run(segs@).0,
        r.1 as int == longest_zero_run(segs@).1,
        r.0 + r.1 <= 8,
{
    let mut start: usize = 0;
    let mut len: usize = 0;
    let mut i: usize = 0;
    while i < 8
        invariant
            i <= 8 == segs.len(),
            start + len <= 8,
            longest_zero_run(segs@) == longest_zero_run_from(segs@, i as int, start as int, len as int),
        decreases 8 - i,
    {
        let l = zero_run_at(segs, i);
        if l > len {
            start = i;
            len = l;
        }
        i = i + 1;
    }
    (start, len)
}

fn push_ipv6(s: &mut String, ip: u128)
    ensures
        final(s)@ == old(s)@ + ipv6_text(ip),
{
    if ip / 0x1_0000_0000 == 0xffff {
        push_char(s, ':');
        push_char(s, ':');
        push_char(s, 'f');
        push_char(s, 'f');
        push_char(s, 'f');
        push_char(s, 'f');
        push_char(s, ':');
        push_ipv4(s, (ip % 0x1_0000_0000) as u32);
        assert(final(s)@ =~= old(s)@ + ipv6_text(ip));
    } else {
        let segs = segments_of(ip);
        let (start, len) = longest_zero_run_of(&segs);
        if len > 1 {
            push_segments(s, &segs, 0, start);
            push_char(s, ':');
            push_char(s, ':');
            push_segments(s, &segs, start + len, 8);
            assert(final(s)@ =~= old(s)@ + ipv6_text(ip));
        } else {
            push_segments(s, &segs, 0, 8);
            assert(segs@.subrange(0, 8) =~= segs@);
        }
    }
}

/// Appends the text of a socket address.
pub fn push_addr(s: &mut String, a: &NetAddr)
    ensures
        final(s)@ == old(s)@ + addr_text(*a),
{
    match a {
        NetAddr::V4 { ip, port } => {
            push_ipv4(s, *ip);
            push_char(s, ':');
            push_decimal(s, *port as u64);
            assert(final(s)@ =~= old(s)@ + addr_text(*a));
        },
        NetAddr::V6 { ip, port, flowinfo, scope_id } => {
            push_char(s, '[');
            push_ipv6(s, *ip);
            if *scope_id != 0 {
                push_char(s, '%');
                push_decimal(s, *scope_id as u64);
            }
            push_char(s, ']');
            push_char(s, ':');
            push_decimal(s, *port as u64);
            assert(final(s)@ =~= old(s)@ + addr_text(*a));
        },
    }
}

/// The text of a socket address, as `SocketAddr::to_string` gives it.
pub fn addr_to_string(a: &NetAddr) -> (s: String)
    ensures
        s@ == addr_text(*a),
{
    let mut s = String::new();
    push_addr(&mut s, a);
    assert(s@ =~= addr_text(*a));
    s
}

} // verus!
