//! Reading a socket address back from its text: `a.b.c.d:port` or
//! `[ipv6%scope]:port`, with the grammar that `SocketAddr::from_str`
//! accepts.

use vstd::prelude::*;
use crate::addr::{
    NetAddr, addr_text, hex_digit_char, hex_text, ipv4_text, ipv6_text, is_v4_mapped, join_segments, longest_zero_run,
    longest_zero_run_from, octet, segment, segment_divisor, segments, zero_run,
};
use crate::text::{decimal, digit_value, digits_value, is_digit, lemma_decimal};

verus! {

/// The value of `c` as a digit in base 10 or 16 (either letter case).
pub open spec fn radix_digit(c: char, radix: nat) -> Option<nat> {
    if '0' <= c && c <= '9' {
        Some((c as int - 48) as nat)
    } else if radix == 16 && 'a' <= c && c <= 'f' {
        Some((c as int - 87) as nat)
    } else if radix == 16 && 'A' <= c && c <= 'F' {
        Some((c as int - 55) as nat)
    } else {
        None
    }
}

/// Length of the run of digits that starts at `i`.
pub open spec fn digit_run(s: Seq<char>, i: int, radix: nat) -> nat
    decreases s.len() - i,
{
    if 0 <= i < s.len() && radix_digit(s[i], radix) is Some {
        1 + digit_run(s, i + 1, radix)
    } else {
        0
    }
}

/// The number denoted by the `k` digits at `i`.
pub open spec fn run_value(s: Seq<char>, i: int, k: int, radix: nat) -> nat
    decreases k,
{
    if k <= 0 {
        0
    } else {
        run_value(s, i, k - 1, radix) * radix + radix_digit(s[i + k - 1], radix).unwrap()
    }
}

/// Reads a number at `i`: the whole run of digits, at most `max_digits`
/// of them when `max_digits > 0`, a value of at most `limit`, and no
/// leading zero unless `allow_zero_prefix`. Gives the value and the index
/// after the digits.
pub open spec fn read_number(
    s: Seq<char>,
    i: int,
    radix: nat,
    max_digits: nat,
    allow_zero_prefix: bool,
    limit: nat,
) -> Option<(nat, int)> {
    let k = digit_run(s, i, radix);
    if k == 0 || (max_digits > 0 && k > max_digits) || run_value(s, i, k as int, radix) > limit || (
    !allow_zero_prefix && s[i] == '0' && k > 1) {
        None
    } else {
        Some((run_value(s, i, k as int, radix), i + k))
    }
}

pub open spec fn char_at(s: Seq<char>, i: int, c: char) -> bool {
    0 <= i < s.len() && s[i] == c
}

/// Reads `a.b.c.d` at `i`: four decimal octets of at most three digits,
/// without leading zeros, separated by dots.
pub open spec fn read_ipv4(s: Seq<char>, i: int) -> Option<(u32, int)> {
    match read_number(s, i, 10, 3, false, 255) {
        None => None,
        Some((a, i1)) => if !char_at(s, i1, '.') {
            None
        } else {
            match read_number(s, i1 + 1, 10, 3, false, 255) {
                None => None,
                Some((b, i2)) => if !char_at(s, i2, '.') {
                    None
                } else {
                    match read_number(s, i2 + 1, 10, 3, false, 255) {
                        None => None,
                        Some((c, i3)) => if !char_at(s, i3, '.') {
                            None
                        } else {
                            match read_number(s, i3 + 1, 10, 3, false, 255) {
                                None => None,
                                Some((d, i4)) => Some(
                                    ((((a * 0x100 + b) * 0x100 + c) * 0x100 + d) as u32, i4),
                                ),
                            }
                        },
                    }
                },
            }
        },
    }
}

/// Reads, at `pos`, the separator `:` unless `k == 0`, then what `inner`
/// reads after it.
pub open spec fn after_separator(s: Seq<char>, pos: int, k: int) -> Option<int> {
    if k == 0 {
        Some(pos)
    } else if char_at(s, pos, ':') {
        Some(pos + 1)
    } else {
        None
    }
}

/// Reads the `k`-th group of an IPv6 address (up to four hex digits).
pub open spec fn read_group(s: Seq<char>, pos: int, k: int) -> Option<(nat, int)> {
    match after_separator(s, pos, k) {
        None => None,
        Some(p) => read_number(s, p, 16, 4, true, 0xffff),
    }
}

/// Reads an IPv4 address embedded as the `k`-th and next group.
pub open spec fn read_embedded_ipv4(s: Seq<char>, pos: int, k: int) -> Option<(u32, int)> {
    match after_separator(s, pos, k) {
        None => None,
        Some(p) => read_ipv4(s, p),
    }
}

/// Reads up to `limit` colon-separated groups, the last two of which may
/// be given as an embedded IPv4 address. Gives the groups read, where
/// reading stopped and whether it ended with an IPv4 address.
pub open spec fn read_groups(s: Seq<char>, pos: int, k: int, limit: int, acc: Seq<u16>) -> (
    Seq<u16>,
    int,
    bool,
)
    decreases limit - k,
{
    if k >= limit {
        (acc, pos, false)
    } else {
        let v4 = if k < limit - 1 {
            read_embedded_ipv4(s, pos, k)
        } else {
            None
        };
        match v4 {
            Some((ip, p)) => (
                acc.push((ip / 0x1_0000) as u16).push((ip % 0x1_0000) as u16),
                p,
                true,
            ),
            None => match read_group(s, pos, k) {
                Some((g, p)) => read_groups(s, p, k + 1, limit, acc.push(g as u16)),
                None => (acc, pos, false),
            },
        }
    }
}

/// The 128-bit number whose 16-bit groups, most significant first, are `segs`.
pub open spec fn segments_value(segs: Seq<u16>) -> nat
    decreases segs.len(),
{
    if segs.len() == 0 {
        0
    } else {
        segments_value(segs.drop_last()) * 0x1_0000 + segs.last() as nat
    }
}

/// Reads an IPv6 address at `i`: eight groups, or groups before and after
/// a single `::` that stands for the missing zero groups.
pub open spec fn read_ipv6(s: Seq<char>, i: int) -> Option<(u128, int)> {
    let (head, p, head_v4) = read_groups(s, i, 0, 8, seq![]);
    if head.len() == 8 {
        Some((segments_value(head) as u128, p))
    } else if head_v4 {
        None
    } else if char_at(s, p, ':') && char_at(s, p + 1, ':') {
        let limit = 8 - (head.len() + 1);
        let (tail, p2, _v4) = read_groups(s, p + 2, 0, limit, seq![]);
        let segs = head + Seq::new((8 - head.len() - tail.len()) as nat, |j: int| 0u16) + tail;
        Some((segments_value(segs) as u128, p2))
    } else {
        None
    }
}

/// Reads `a.b.c.d:port` at the start of `s`.
pub open spec fn read_socket_v4(s: Seq<char>) -> Option<(NetAddr, int)> {
    match read_ipv4(s, 0) {
        None => None,
        Some((ip, p)) => if !char_at(s, p, ':') {
            None
        } else {
            match read_number(s, p + 1, 10, 0, true, 0xffff) {
                None => None,
                Some((port, q)) => Some((NetAddr::V4 { ip, port: port as u16 }, q)),
            }
        },
    }
}

/// Reads an optional `%scope`: the scope and the index after it, or 0
/// and `p` when there is none.
pub open spec fn read_scope(s: Seq<char>, p: int) -> (u32, int) {
    if char_at(s, p, '%') {
        match read_number(s, p + 1, 10, 0, true, 0xffff_ffff) {
            Some((v, q)) => (v as u32, q),
            None => (0, p),
        }
    } else {
        (0, p)
    }
}

/// Reads `[ipv6]:port` or `[ipv6%scope]:port` at the start of `s`.
pub open spec fn read_socket_v6(s: Seq<char>) -> Option<(NetAddr, int)> {
    if !char_at(s, 0, '[') {
        None
    } else {
        match read_ipv6(s, 1) {
            None => None,
            Some((ip, p)) => {
                let (scope_id, p2) = read_scope(s, p);
                if !char_at(s, p2, ']') || !char_at(s, p2 + 1, ':') {
                    None
                } else {
                    match read_number(s, p2 + 2, 10, 0, true, 0xffff) {
                        None => None,
                        Some((port, q)) => Some(
                            (NetAddr::V6 { ip, port: port as u16, flowinfo: 0, scope_id }, q),
                        ),
                    }
                }
            },
        }
    }
}

/// The socket address that `s` denotes, if it is one: an IPv4 socket
/// address if one can be read at the start, else an IPv6 one, and in
/// either case nothing may follow it.
#[verifier::opaque]
pub open spec fn parse_addr_spec(s: Seq<char>) -> Option<NetAddr> {
    match read_socket_v4(s) {
        Some((a, q)) => if q == s.len() {
            Some(a)
        } else {
            None
        },
        None => match read_socket_v6(s) {
            Some((a, q)) => if q == s.len() {
                Some(a)
            } else {
                None
            },
            None => None,
        },
    }
}

fn radix_digit_of(c: char, radix: u64) -> (r: Option<u64>)
    requires
        radix == 10 || radix == 16,
    ensures
        r matches Some(d) ==> radix_digit(c, radix as nat) == Some(d as nat) && d < radix,
        r is None ==> radix_digit(c, radix as nat) is None,
{
    if '0' <= c && c <= '9' {
        Some((c as u32 - 48) as u64)
    } else if radix == 16 && 'a' <= c && c <= 'f' {
        Some((c as u32 - 87) as u64)
    } else if radix == 16 && 'A' <= c && c <= 'F' {
        Some((c as u32 - 55) as u64)
    } else {
        None
    }
}

proof fn lemma_run_value_grows(s: Seq<char>, i: int, k: int, radix: nat)
    requires
        k > 0,
        radix >= 1,
    ensures
        run_value(s, i, k, radix) >= run_value(s, i, k - 1, radix),
{
    let a = run_value(s, i, k - 1, radix);
    assert(a * radix >= a) by (nonlinear_arith)
        requires
            radix >= 1,
            a >= 0,
    ;
}

fn read_number_at(
    s: &Vec<char>,
    i: usize,
    radix: u64,
    max_digits: usize,
    allow_zero_prefix: bool,
    limit: u64,
) -> (r: Option<(u64, usize)>)
    requires
        radix == 10 || radix == 16,
        i <= s.len(),
        limit <= u32::MAX,
        max_digits <= 4,
    ensures
        match read_number(s@, i as int, radix as nat, max_digits as nat, allow_zero_prefix, limit as nat) {
            None => r is None,
            Some((v, j)) => r == Some((v as u64, j as usize)) && 0 <= j <= s.len(),
        },
        r matches Some((v, j)) ==> v <= limit && i < j <= s.len(),
{
    let mut j = i;
    let mut value: u64 = 0;
    let mut over = false;
    while j < s.len()
        invariant
            i <= j <= s.len(),
            radix == 10 || radix == 16,
            limit <= u32::MAX,
            digit_run(s@, i as int, radix as nat) == (j - i) + digit_run(s@, j as int, radix as nat),
            !over ==> value == run_value(s@, i as int, j - i, radix as nat) && value <= limit,
            over ==> run_value(s@, i as int, j - i, radix as nat) > limit,
        ensures
            i <= j <= s.len(),
            j == s.len() || radix_digit(s@[j as int], radix as nat) is None,
            digit_run(s@, i as int, radix as nat) == (j - i) + digit_run(s@, j as int, radix as nat),
            !over ==> value == run_value(s@, i as int, j - i, radix as nat) && value <= limit,
            over ==> run_value(s@, i as int, j - i, radix as nat) > limit,
        decreases s.len() - j,
    {
        match radix_digit_of(s[j], radix) {
            None => {
                break;
            },
            Some(d) => {
                proof {
                    lemma_run_value_grows(s@, i as int, j - i + 1, radix as nat);
                }
                if !over {
                    assert(value * radix + d <= u32::MAX * 16 + 15) by (nonlinear_arith)
                        requires
                            value <= u32::MAX,
                            radix <= 16,
                            d < 16,
                    ;
                    value = value * radix + d;
                    if value > limit {
                        over = true;
                    }
                }
                j = j + 1;
            },
        }
    }
    assert(digit_run(s@, j as int, radix as nat) == 0);
    let k = j - i;
    if k == 0 || (max_digits > 0 && k > max_digits) || over || (!allow_zero_prefix && s[i] == '0'
        && k > 1) {
        None
    } else {
        Some((value, j))
    }
}

fn char_at_exec(s: &Vec<char>, i: usize, c: char) -> (b: bool)
    ensures
        b == char_at(s@, i as int, c),
{
    i < s.len() && s[i] == c
}

fn read_ipv4_at(s: &Vec<char>, i: usize) -> (r: Option<(u32, usize)>)
    requires
        i <= s.len(),
    ensures
        match read_ipv4(s@, i as int) {
            None => r is None,
            Some((ip, j)) => r == Some((ip, j as usize)) && 0 <= j <= s.len(),
        },
        r matches Some((ip, j)) ==> i < j <= s.len(),
{
    let (a, i1) = match read_number_at(s, i, 10, 3, false, 255) {
        None => return None,
        Some(x) => x,
    };
    if !char_at_exec(s, i1, '.') {
        return None;
    }
    let (b, i2) = match read_number_at(s, i1 + 1, 10, 3, false, 255) {
        None => return None,
        Some(x) => x,
    };
    if !char_at_exec(s, i2, '.') {
        return None;
    }
    let (c, i3) = match read_number_at(s, i2 + 1, 10, 3, false, 255) {
        None => return None,
        Some(x) => x,
    };
    if !char_at_exec(s, i3, '.') {
        return None;
    }
    let (d, i4) = match read_number_at(s, i3 + 1, 10, 3, false, 255) {
        None => return None,
        Some(x) => x,
    };
    let ip = (((a * 0x100 + b) * 0x100 + c) * 0x100 + d) as u32;
    Some((ip, i4))
}

fn after_separator_at(s: &Vec<char>, pos: usize, k: usize) -> (r: Option<usize>)
    requires
        pos <= s.len(),
    ensures
        match after_separator(s@, pos as int, k as int) {
            None => r is None,
            Some(p) => r == Some(p as usize) && p <= s.len(),
        },
{
    if k == 0 {
        Some(pos)
    } else if char_at_exec(s, pos, ':') {
        Some(pos + 1)
    } else {
        None
    }
}

fn read_groups_at(s: &Vec<char>, pos: usize, limit: usize) -> (r: (Vec<u16>, usize, bool))
    requires
        pos <= s.len(),
        limit <= 8,
    ensures
        read_groups(s@, pos as int, 0, limit as int, seq![]) == (r.0@, r.1 as int, r.2),
        r.0@.len() <= limit,
        r.1 <= s.len(),
{
    let mut acc: Vec<u16> = Vec::new();
    let mut p = pos;
    let mut k: usize = 0;
    while k < limit
        invariant
            k <= limit <= 8,
            p <= s.len(),
            acc@.len() == k,
            read_groups(s@, pos as int, 0, limit as int, seq![]) == read_groups(
                s@,
                p as int,
                k as int,
                limit as int,
                acc@,
            ),
        decreases limit - k,
    {
        if k + 1 < limit {
            match after_separator_at(s, p, k) {
                Some(q) => {
                    match read_ipv4_at(s, q) {
                        Some((ip, p2)) => {
                            acc.push((ip / 0x1_0000) as u16);
                            acc.push((ip % 0x1_0000) as u16);
                            return (acc, p2, true);
                        },
                        None => {},
                    }
                },
                None => {},
            }
        }
        let g = match after_separator_at(s, p, k) {
            None => None,
            Some(q) => read_number_at(s, q, 16, 4, true, 0xffff),
        };
        match g {
            Some((v, p2)) => {
                acc.push(v as u16);
                p = p2;
                k = k + 1;
            },
            None => {
                return (acc, p, false);
            },
        }
    }
    (acc, p, false)
}

fn segments_value_of(segs: &Vec<u16>) -> (v: u128)
    requires
        segs.len() <= 8,
    ensures
        v == segments_value(segs@),
{
    let mut v: u128 = 0;
    let mut i: usize = 0;
    while i < segs.len()
        invariant
            i <= segs.len() <= 8,
            v == segments_value(segs@.subrange(0, i as int)),
            v < pow_65536(i as nat),
        decreases segs.len() - i,
    {
        assert(segs@.subrange(0, i + 1).drop_last() =~= segs@.subrange(0, i as int));
        proof {
            lemma_pow_bound(i as nat);
        }
        assert(v * 0x1_0000 + segs[i as int] < pow_65536((i + 1) as nat)) by (nonlinear_arith)
            requires
                v < pow_65536(i as nat),
                pow_65536((i + 1) as nat) == pow_65536(i as nat) * 0x1_0000,
                segs[i as int] < 0x1_0000,
        ;
        v = v * 0x1_0000 + segs[i] as u128;
        i = i + 1;
    }
    assert(segs@.subrange(0, segs.len() as int) =~= segs@);
    v
}

pub open spec fn pow_65536(n: nat) -> nat
    decreases n,
{
    if n == 0 {
        1
    } else {
        pow_65536((n - 1) as nat) * 0x1_0000
    }
}

proof fn lemma_pow_bound(n: nat)
    requires
        n < 8,
    ensures
        pow_65536(n + 1) <= 0x1_0000_0000_0000_0000_0000_0000_0000_0000,
        pow_65536(n + 1) == pow_65536(n) * 0x1_0000,
    decreases n,
{
    reveal_with_fuel(pow_65536, 9);
}

fn read_ipv6_at(s: &Vec<char>, i: usize) -> (r: Option<(u128, usize)>)
    requires
        i <= s.len(),
    ensures
        match read_ipv6(s@, i as int) {
            None => r is None,
            Some((ip, j)) => r == Some((ip, j as usize)) && 0 <= j <= s.len(),
        },
        r matches Some((ip, j)) ==> j <= s.len(),
{
    let (head, p, head_v4) = read_groups_at(s, i, 8);
    if head.len() == 8 {
        return Some((segments_value_of(&head), p));
    }
    if head_v4 {
        return None;
    }
    if !(char_at_exec(s, p, ':') && char_at_exec(s, p + 1, ':')) {
        return None;
    }
    let limit = 8 - (head.len() + 1);
    let (tail, p2, _v4) = read_groups_at(s, p + 2, limit);
    let mut segs: Vec<u16> = Vec::new();
    let mut k: usize = 0;
    while k < head.len()
        invariant
            k <= head.len() < 8,
            segs@ == head@.subrange(0, k as int),
        decreases head.len() - k,
    {
        segs.push(head[k]);
        k = k + 1;
    }
    let zeros = 8 - head.len() - tail.len();
    let mut z: usize = 0;
    while z < zeros
        invariant
            z <= zeros,
            zeros == 8 - head.len() - tail.len(),
            segs@ == head@ + Seq::new(z as nat, |j: int| 0u16),
        decreases zeros - z,
    {
        segs.push(0u16);
        z = z + 1;
        assert(segs@ =~= head@ + Seq::new(z as nat, |j: int| 0u16));
    }
    let mut t: usize = 0;
    while t < tail.len()
        invariant
            t <= tail.len(),
            segs@ == head@ + Seq::new(zeros as nat, |j: int| 0u16) + tail@.subrange(0, t as int),
        decreases tail.len() - t,
    {
        segs.push(tail[t]);
        t = t + 1;
        assert(segs@ =~= head@ + Seq::new(zeros as nat, |j: int| 0u16) + tail@.subrange(
            0,
            t as int,
        ));
    }
    assert(tail@.subrange(0, tail.len() as int) =~= tail@);
    assert(head@.subrange(0, head.len() as int) =~= head@);
    Some((segments_value_of(&segs), p2))
}

/// Reads a socket address from its text, as `SocketAddr::from_str` does.
pub fn parse_addr(s: &Vec<char>) -> (r: Option<NetAddr>)
    ensures
        r == parse_addr_spec(s@),
{
    reveal(parse_addr_spec);
    let v4 = match read_ipv4_at(s, 0) {
        None => None,
        Some((ip, p)) => if !char_at_exec(s, p, ':') {
            None
        } else {
            match read_number_at(s, p + 1, 10, 0, true, 0xffff) {
                None => None,
                Some((port, q)) => Some((NetAddr::V4 { ip, port: port as u16 }, q)),
            }
        },
    };
    match v4 {
        Some((a, q)) => {
            if q == s.len() {
                return Some(a);
            } else {
                return None;
            }
        },
        None => {},
    }
    assert(read_socket_v4(s@) is None);
    if !char_at_exec(s, 0, '[') {
        return None;
    }
    let (ip, p) = match read_ipv6_at(s, 1) {
        None => return None,
        Some(x) => x,
    };
    let (scope_id, p2) = if char_at_exec(s, p, '%') {
        match read_number_at(s, p + 1, 10, 0, true, 0xffff_ffff) {
            Some((v, q)) => (v as u32, q),
            None => (0u32, p),
        }
    } else {
        (0u32, p)
    };
    if !char_at_exec(s, p2, ']') || !char_at_exec(s, p2 + 1, ':') {
        return None;
    }
    match read_number_at(s, p2 + 2, 10, 0, true, 0xffff) {
        None => None,
        Some((port, q)) => {
            if q == s.len() {
                Some(NetAddr::V6 { ip, port: port as u16, flowinfo: 0, scope_id })
            } else {
                None
            }
        },
    }
}

proof fn lemma_digit_run_exact(s: Seq<char>, i: int, k: int, radix: nat)
    requires
        0 <= i,
        0 <= k,
        i + k <= s.len(),
        forall|j: int| i <= j < i + k ==> (#[trigger] radix_digit(s[j], radix)) is Some,
        i + k == s.len() || radix_digit(s[i + k], radix) is None,
    ensures
        digit_run(s, i, radix) == k,
    decreases k,
{
    if k > 0 {
        assert(radix_digit(s[i], radix) is Some);
        lemma_digit_run_exact(s, i + 1, k - 1, radix);
    }
}

proof fn lemma_run_value_decimal(s: Seq<char>, i: int, k: int)
    requires
        0 <= i,
        0 <= k,
        i + k <= s.len(),
        forall|j: int| i <= j < i + k ==> is_digit(#[trigger] s[j]),
    ensures
        run_value(s, i, k, 10) == digits_value(s.subrange(i, i + k)),
    decreases k,
{
    if k > 0 {
        lemma_run_value_decimal(s, i, k - 1);
        let sub = s.subrange(i, i + k);
        assert(sub.drop_last() =~= s.subrange(i, i + k - 1));
        assert(sub.last() == s[i + k - 1]);
        assert(is_digit(s[i + k - 1]));
        assert(radix_digit(s[i + k - 1], 10).unwrap() == digit_value(s[i + k - 1]));
    } else {
        assert(s.subrange(i, i) =~= Seq::<char>::empty());
    }
}

/// A number written in decimal at `i`, followed by the end or a
/// non-digit, reads back as itself.
proof fn lemma_read_decimal(s: Seq<char>, i: int, n: nat, max_digits: nat, allow_zero_prefix: bool, limit: nat)
    requires
        0 <= i,
        i + decimal(n).len() <= s.len(),
        s.subrange(i, i + decimal(n).len()) == decimal(n),
        i + decimal(n).len() == s.len() || !is_digit(s[i + decimal(n).len()]),
        n <= limit,
        max_digits == 0 || decimal(n).len() <= max_digits,
    ensures
        read_number(s, i, 10, max_digits, allow_zero_prefix, limit) == Some((n, i + decimal(n).len())),
{
    lemma_decimal(n);
    let d = decimal(n);
    let k = d.len() as int;
    assert forall|j: int| i <= j < i + k implies is_digit(#[trigger] s[j]) by {
        assert(s[j] == s.subrange(i, i + k)[j - i]);
        assert(is_digit(d[j - i]));
    }
    assert forall|j: int| i <= j < i + k implies (#[trigger] radix_digit(s[j], 10)) is Some by {
        assert(is_digit(s[j]));
    }
    lemma_digit_run_exact(s, i, k, 10);
    lemma_run_value_decimal(s, i, k);
    assert(s[i] == d[0]);
}

proof fn lemma_octets(ip: u32)
    ensures
        octet(ip, 0) <= 255,
        octet(ip, 1) <= 255,
        octet(ip, 2) <= 255,
        octet(ip, 3) <= 255,
        (((octet(ip, 0) * 0x100 + octet(ip, 1)) * 0x100 + octet(ip, 2)) * 0x100 + octet(ip, 3)) as u32 == ip,
{
    assert((((ip / 0x100_0000) * 0x100 + (ip / 0x1_0000) % 0x100) * 0x100 + (ip / 0x100) % 0x100) * 0x100 + ip % 0x100 == ip) by (bit_vector);
    assert(ip / 0x100_0000 <= 255) by (bit_vector);
}

/// The IPv4 text of `ip`, written at `i` and followed by the end or a
/// non-digit, reads back as `ip`.
#[verifier::spinoff_prover]
proof fn lemma_read_ipv4_text(s: Seq<char>, i: int, ip: u32)
    requires
        0 <= i,
        i + ipv4_text(ip).len() <= s.len(),
        s.subrange(i, i + ipv4_text(ip).len()) == ipv4_text(ip),
        i + ipv4_text(ip).len() == s.len() || !is_digit(s[i + ipv4_text(ip).len()]),
    ensures
        read_ipv4(s, i) == Some((ip, i + ipv4_text(ip).len())),
{
    lemma_octets(ip);
    let o0 = octet(ip, 0);
    let o1 = octet(ip, 1);
    let o2 = octet(ip, 2);
    let o3 = octet(ip, 3);
    lemma_decimal(o0);
    lemma_decimal(o1);
    lemma_decimal(o2);
    lemma_decimal(o3);
    let d0 = decimal(o0);
    let d1 = decimal(o1);
    let d2 = decimal(o2);
    let d3 = decimal(o3);
    let t = ipv4_text(ip);
    let n = t.len() as int;
    assert(t =~= d0 + seq!['.'] + d1 + seq!['.'] + d2 + seq!['.'] + d3);
    let i1: int = i + d0.len() as int + 1;
    let i2: int = i1 + d1.len() + 1;
    let i3: int = i2 + d2.len() + 1;
    let i4: int = i3 + d3.len();
    assert(i4 == i + n);
    assert forall|j: int| 0 <= j < n implies s[i + j] == #[trigger] t[j] by {
        assert(s.subrange(i, i + n)[j] == s[i + j]);
    }
    assert(s.subrange(i, i + d0.len()) =~= d0) by {
        assert forall|j: int| 0 <= j < d0.len() implies s.subrange(i, i + d0.len())[j] == d0[j] by {
            assert(t[j] == d0[j]);
        }
    }
    assert(s[i + d0.len()] == t[d0.len() as int]);
    assert(s.subrange(i1, i1 + d1.len()) =~= d1) by {
        assert forall|j: int| 0 <= j < d1.len() implies s.subrange(i1, i1 + d1.len())[j] == d1[j] by {
            assert(t[i1 - i + j] == d1[j]);
        }
    }
    assert(s[i1 + d1.len()] == t[i1 - i + d1.len()]);
    assert(s.subrange(i2, i2 + d2.len()) =~= d2) by {
        assert forall|j: int| 0 <= j < d2.len() implies s.subrange(i2, i2 + d2.len())[j] == d2[j] by {
            assert(t[i2 - i + j] == d2[j]);
        }
    }
    assert(s[i2 + d2.len()] == t[i2 - i + d2.len()]);
    assert(s.subrange(i3, i3 + d3.len()) =~= d3) by {
        assert forall|j: int| 0 <= j < d3.len() implies s.subrange(i3, i3 + d3.len())[j] == d3[j] by {
            assert(t[i3 - i + j] == d3[j]);
        }
    }
    lemma_read_decimal(s, i, o0, 3, false, 255);
    lemma_read_decimal(s, i1, o1, 3, false, 255);
    lemma_read_decimal(s, i2, o2, 3, false, 255);
    lemma_read_decimal(s, i3, o3, 3, false, 255);
}

/// The text of an IPv4 socket address reads back as that address.
#[verifier::spinoff_prover]
pub proof fn lemma_parse_v4_text(ip: u32, port: u16)
    ensures
        parse_addr_spec(addr_text(NetAddr::V4 { ip, port })) == Some(NetAddr::V4 { ip, port }),
{
    lemma_decimal(port as nat);
    let t = ipv4_text(ip);
    let dp = decimal(port as nat);
    let s = addr_text(NetAddr::V4 { ip, port });
    let i4 = t.len() as int;
    assert(s =~= t + seq![':'] + dp);
    assert(s.subrange(0, i4) =~= t);
    assert(s[i4] == ':');
    assert(s.subrange(i4 + 1, i4 + 1 + dp.len()) =~= dp);
    lemma_read_ipv4_text(s, 0, ip);
    lemma_read_decimal(s, i4 + 1, port as nat, 0, true, 0xffff);
    assert(read_socket_v4(s) == Some((NetAddr::V4 { ip, port }, s.len() as int)));
    reveal(parse_addr_spec);
}

proof fn lemma_hex_digit_value(d: nat)
    requires
        d < 16,
    ensures
        radix_digit(hex_digit_char(d), 16) == Some(d),
        hex_digit_char(d) != '.',
        hex_digit_char(d) != ':',
{
}

/// The hex text of a number is a non-empty run of hex digits (at most four
/// for a 16-bit number) that reads back as the number.
proof fn lemma_hex_text(n: nat)
    ensures
        hex_text(n).len() >= 1,
        forall|j: int|
            0 <= j < hex_text(n).len() ==> (radix_digit(#[trigger] hex_text(n)[j], 16) is Some)
                && hex_text(n)[j] != '.' && hex_text(n)[j] != ':',
        n < 0x10 ==> hex_text(n).len() == 1,
        n < 0x100 ==> hex_text(n).len() <= 2,
        n < 0x1000 ==> hex_text(n).len() <= 3,
        n < 0x1_0000 ==> hex_text(n).len() <= 4,
    decreases n,
{
    if n >= 16 {
        lemma_hex_text(n / 16);
        lemma_hex_digit_value(n % 16);
        let t = hex_text(n);
        let u = hex_text(n / 16);
        assert(t == u.push(hex_digit_char(n % 16)));
        assert forall|j: int| 0 <= j < t.len() implies (radix_digit(#[trigger] t[j], 16) is Some) && t[j] != '.'
            && t[j] != ':' by {
            if j < u.len() {
                assert(t[j] == u[j]);
            }
        }
    } else {
        lemma_hex_digit_value(n);
    }
}

proof fn lemma_run_value_hex(s: Seq<char>, i: int, n: nat)
    requires
        0 <= i,
        i + hex_text(n).len() <= s.len(),
        s.subrange(i, i + hex_text(n).len()) == hex_text(n),
    ensures
        run_value(s, i, hex_text(n).len() as int, 16) == n,
    decreases n,
{
    let t = hex_text(n);
    let l = t.len() as int;
    if n < 16 {
        lemma_hex_digit_value(n);
        assert(s[i] == s.subrange(i, i + l)[0]);
        assert(run_value(s, i, 0, 16) == 0);
    } else {
        let u = hex_text(n / 16);
        assert(t == u.push(hex_digit_char(n % 16)));
        assert(s.subrange(i, i + u.len()) =~= u) by {
            assert forall|j: int| 0 <= j < u.len() implies s.subrange(i, i + u.len())[j] == u[j] by {
                assert(s.subrange(i, i + l)[j] == s[i + j]);
                assert(t[j] == u[j]);
            }
        }
        lemma_run_value_hex(s, i, n / 16);
        lemma_hex_digit_value(n % 16);
        assert(s[i + l - 1] == s.subrange(i, i + l)[l - 1]);
        assert(run_value(s, i, l, 16) == run_value(s, i, l - 1, 16) * 16 + radix_digit(s[i + l - 1], 16).unwrap());
    }
}

/// A 16-bit number written in hex at `i`, followed by the end or a
/// non-hex character, reads back as one IPv6 group.
proof fn lemma_read_hex(s: Seq<char>, i: int, n: nat)
    requires
        n < 0x1_0000,
        0 <= i,
        i + hex_text(n).len() <= s.len(),
        s.subrange(i, i + hex_text(n).len()) == hex_text(n),
        i + hex_text(n).len() == s.len() || radix_digit(s[i + hex_text(n).len()], 16) is None,
    ensures
        read_number(s, i, 16, 4, true, 0xffff) == Some((n, i + hex_text(n).len())),
{
    lemma_hex_text(n);
    let t = hex_text(n);
    let k = t.len() as int;
    assert forall|j: int| i <= j < i + k implies (#[trigger] radix_digit(s[j], 16)) is Some by {
        assert(s[j] == s.subrange(i, i + k)[j - i]);
        assert(radix_digit(t[j - i], 16) is Some);
    }
    lemma_digit_run_exact(s, i, k, 16);
    lemma_run_value_hex(s, i, n);
}

/// Without a `.` in the text, no IPv4 address can be read from it.
proof fn lemma_no_dot_no_ipv4(s: Seq<char>, i: int)
    requires
        !s.contains('.'),
    ensures
        read_ipv4(s, i) is None,
{
    match read_number(s, i, 10, 3, false, 255) {
        None => {},
        Some((a, i1)) => {
            if char_at(s, i1, '.') {
                assert(s[i1] == '.');
                assert(s.contains('.'));
            }
        },
    }
}

/// Joining `x` before further segments puts a `:` between.
proof fn lemma_join_cons(x: u16, rest: Seq<u16>)
    requires
        rest.len() >= 1,
    ensures
        join_segments(seq![x] + rest) == hex_text(x as nat) + seq![':'] + join_segments(rest),
    decreases rest.len(),
{
    let whole = seq![x] + rest;
    assert(whole.drop_last() =~= seq![x] + rest.drop_last());
    assert(whole.last() == rest.last());
    if rest.len() == 1 {
        assert(seq![x] + rest.drop_last() =~= seq![x]);
        assert(join_segments(seq![x]) == hex_text(x as nat));
        assert(join_segments(rest) == hex_text(rest[0] as nat));
        assert(join_segments(whole) =~= hex_text(x as nat) + seq![':'] + join_segments(rest));
    } else {
        lemma_join_cons(x, rest.drop_last());
        assert(join_segments(whole) =~= hex_text(x as nat) + seq![':'] + join_segments(rest));
    }
}

/// The joined hex text of segments holds no character that is neither a
/// hex digit nor `:`.
proof fn lemma_join_lacks(segs: Seq<u16>, c: char)
    requires
        radix_digit(c, 16) is None,
        c != ':',
    ensures
        !join_segments(segs).contains(c),
    decreases segs.len(),
{
    let t = join_segments(segs);
    if segs.len() == 1 {
        lemma_hex_text(segs[0] as nat);
        if t.contains(c) {
            let j = choose|j: int| 0 <= j < t.len() && t[j] == c;
        }
    } else if segs.len() > 1 {
        lemma_join_lacks(segs.drop_last(), c);
        let u = join_segments(segs.drop_last());
        let h = hex_text(segs.last() as nat);
        lemma_hex_text(segs.last() as nat);
        assert(t == u + seq![':'] + h);
        if t.contains(c) {
            let j = choose|j: int| 0 <= j < t.len() && t[j] == c;
            if j < u.len() {
                assert(t[j] == u[j]);
            } else if j > u.len() {
                assert(t[j] == h[j - u.len() - 1]);
            }
        }
    }
}

/// The text of groups read from the `k`-th on: nothing when there are
/// none, else the groups joined by `:`, after a `:` unless `k == 0`.
pub open spec fn groups_text(k: int, segs: Seq<u16>) -> Seq<char> {
    if segs.len() == 0 {
        seq![]
    } else if k == 0 {
        join_segments(segs)
    } else {
        seq![':'] + join_segments(segs)
    }
}

/// A piece of text found at `p` can be found piecewise: what lies from
/// `off` on lies at `p + off`.
proof fn lemma_found_suffix(s: Seq<char>, p: int, t: Seq<char>, off: int)
    requires
        0 <= p,
        p + t.len() <= s.len(),
        s.subrange(p, p + t.len()) == t,
        0 <= off <= t.len(),
    ensures
        s.subrange(p + off, p + t.len()) == t.subrange(off, t.len() as int),
{
    assert forall|j: int| 0 <= j < t.len() - off implies s.subrange(p + off, p + t.len())[j] == t.subrange(off, t.len() as int)[j] by {
        assert(s.subrange(p, p + t.len())[off + j] == s[p + off + j]);
    }
    assert(s.subrange(p + off, p + t.len()) =~= t.subrange(off, t.len() as int));
}

proof fn lemma_found_prefix(s: Seq<char>, p: int, t: Seq<char>, len: int)
    requires
        0 <= p,
        p + t.len() <= s.len(),
        s.subrange(p, p + t.len()) == t,
        0 <= len <= t.len(),
    ensures
        s.subrange(p, p + len) == t.subrange(0, len),
{
    assert forall|j: int| 0 <= j < len implies s.subrange(p, p + len)[j] == t.subrange(0, len)[j] by {
        assert(s.subrange(p, p + t.len())[j] == s[p + j]);
    }
    assert(s.subrange(p, p + len) =~= t.subrange(0, len));
}

/// Groups written in hex and joined by `:` are read back one by one, when
/// no IPv4 address can be read anywhere and reading stops right after them.
#[verifier::spinoff_prover]
proof fn lemma_read_groups(s: Seq<char>, p: int, k: int, limit: int, acc: Seq<u16>, segs: Seq<u16>)
    requires
        !s.contains('.'),
        0 <= k,
        k + segs.len() <= limit,
        0 <= p,
        p + groups_text(k, segs).len() <= s.len(),
        s.subrange(p, p + groups_text(k, segs).len()) == groups_text(k, segs),
        segs.len() > 0 ==> (p + groups_text(k, segs).len() == s.len() || radix_digit(
            s[p + groups_text(k, segs).len()],
            16,
        ) is None),
        k + segs.len() < limit ==> read_group(s, p + groups_text(k, segs).len(), k + segs.len()) is None,
    ensures
        read_groups(s, p, k, limit, acc) == (acc + segs, p + groups_text(k, segs).len(), false),
    decreases segs.len(),
{
    let t = groups_text(k, segs);
    if segs.len() == 0 {
        assert(acc + segs =~= acc);
        if k < limit - 1 {
            match after_separator(s, p, k) {
                Some(q) => lemma_no_dot_no_ipv4(s, q),
                None => {},
            }
        }
    } else {
        let x = segs[0];
        let rest = segs.drop_first();
        assert(segs =~= seq![x] + rest);
        let h = hex_text(x as nat);
        lemma_hex_text(x as nat);
        let l = h.len() as int;
        let pre: Seq<char> = if k == 0 { seq![] } else { seq![':'] };
        let q = p + pre.len();
        let t2 = groups_text(k + 1, rest);
        if rest.len() > 0 {
            lemma_join_cons(x, rest);
            assert(t =~= pre + h + t2);
        } else {
            assert(join_segments(segs) == h);
            assert(t =~= pre + h + t2);
        }
        if k > 0 {
            assert(s[p] == s.subrange(p, p + t.len())[0]);
        }
        assert(after_separator(s, p, k) == Some(q));
        lemma_found_suffix(s, p, t, pre.len() as int);
        lemma_found_prefix(s, q, t.subrange(pre.len() as int, t.len() as int), l);
        assert(t.subrange(pre.len() as int, t.len() as int).subrange(0, l) =~= h);
        if rest.len() > 0 {
            assert(s[q + l] == s.subrange(p, p + t.len())[pre.len() + l]);
            assert(t[pre.len() + l] == ':');
        }
        lemma_read_hex(s, q, x as nat);
        assert(read_group(s, p, k) == Some((x as nat, q + l)));
        if k < limit - 1 {
            lemma_no_dot_no_ipv4(s, q);
        }
        lemma_found_suffix(s, p, t, pre.len() + l);
        assert(t.subrange(pre.len() + l, t.len() as int) =~= t2);
        lemma_read_groups(s, q + l, k + 1, limit, acc.push(x), rest);
        assert(acc.push(x) + rest =~= acc + segs);
    }
}

proof fn lemma_zero_run(segs: Seq<u16>, i: int)
    requires
        0 <= i <= segs.len(),
    ensures
        0 <= zero_run(segs, i),
        i + zero_run(segs, i) <= segs.len(),
        forall|j: int| i <= j < i + zero_run(segs, i) ==> segs[j] == 0,
    decreases segs.len() - i,
{
    if i < segs.len() && segs[i] == 0 {
        lemma_zero_run(segs, i + 1);
    }
}

proof fn lemma_longest_zero_run_from(segs: Seq<u16>, i: int, start: int, len: int)
    requires
        0 <= i,
        0 <= start,
        0 <= len,
        start + len <= segs.len(),
        forall|j: int| start <= j < start + len ==> segs[j] == 0,
    ensures
        0 <= longest_zero_run_from(segs, i, start, len).0,
        0 <= longest_zero_run_from(segs, i, start, len).1,
        longest_zero_run_from(segs, i, start, len).0 + longest_zero_run_from(segs, i, start, len).1 <= segs.len(),
        forall|j: int|
            longest_zero_run_from(segs, i, start, len).0 <= j < longest_zero_run_from(segs, i, start, len).0
                + longest_zero_run_from(segs, i, start, len).1 ==> segs[j] == 0,
    decreases segs.len() - i,
{
    if i < segs.len() {
        lemma_zero_run(segs, i);
        if zero_run(segs, i) > len {
            lemma_longest_zero_run_from(segs, i + 1, i, zero_run(segs, i));
        } else {
            lemma_longest_zero_run_from(segs, i + 1, start, len);
        }
    }
}

/// The first longest run of zero segments lies within the segments and
/// holds only zeros.
proof fn lemma_longest_zero_run(segs: Seq<u16>)
    ensures
        0 <= longest_zero_run(segs).0,
        0 <= longest_zero_run(segs).1,
        longest_zero_run(segs).0 + longest_zero_run(segs).1 <= segs.len(),
        forall|j: int|
            longest_zero_run(segs).0 <= j < longest_zero_run(segs).0 + longest_zero_run(segs).1 ==> segs[j]
                == 0,
{
    lemma_longest_zero_run_from(segs, 0, 0, 0);
}

/// The first `j` segments of an address denote the address divided by the
/// weight of segment `j - 1`.
#[verifier::spinoff_prover]
proof fn lemma_segments_prefix(ip: u128, j: int)
    requires
        1 <= j <= 8,
    ensures
        segments_value(segments(ip).subrange(0, j)) == ip / segment_divisor(j - 1),
    decreases j,
{
    let segs = segments(ip);
    let pre = segs.subrange(0, j);
    assert(pre.drop_last() =~= segs.subrange(0, j - 1));
    assert(pre.last() == segment(ip, j - 1));
    assert(segments_value(pre) == segments_value(pre.drop_last()) * 0x1_0000 + pre.last() as nat);
    if j == 1 {
        assert(segs.subrange(0, 0) =~= Seq::<u16>::empty());
        let x = ip / 0x1_0000_0000_0000_0000_0000_0000_0000u128;
        assert(x < 0x1_0000);
        assert(x % 0x1_0000 == x);
        assert(segment(ip, 0) as int == x);
    } else {
        lemma_segments_prefix(ip, j - 1);
        let d = segment_divisor(j - 1);
        let x = ip / d;
        assert(segment_divisor(j - 2) as int == d as int * 0x1_0000);
        vstd::arithmetic::div_mod::lemma_div_denominator(ip as int, d as int, 0x1_0000);
        assert(ip / segment_divisor(j - 2) == x / 0x1_0000);
        assert(x == (x / 0x1_0000) * 0x1_0000 + x % 0x1_0000);
        assert(segment(ip, j - 1) as int == x % 0x1_0000);
    }
}

/// The segments of an address denote the address.
proof fn lemma_segments_value(ip: u128)
    ensures
        segments_value(segments(ip)) == ip,
{
    lemma_segments_prefix(ip, 8);
    assert(segments(ip).subrange(0, 8) =~= segments(ip));
    assert(segment_divisor(7) == 1);
    assert(ip / 1u128 == ip);
}

/// Groups before and after a `::`, written at 1 in a text without `.`
/// and followed by `]` or `%`, read back as those groups with zeros
/// filling the gap.
#[verifier::spinoff_prover]
proof fn lemma_read_ipv6_compressed(s: Seq<char>, head: Seq<u16>, tail: Seq<u16>)
    requires
        head.len() + tail.len() <= 6,
        !s.contains('.'),
        1 + ((join_segments(head) + seq![':', ':'] + join_segments(tail)).len() as int) < s.len(),
        s.subrange(1, 1 + (join_segments(head) + seq![':', ':'] + join_segments(tail)).len() as int)
            == join_segments(head) + seq![':', ':'] + join_segments(tail),
        s[1 + (join_segments(head) + seq![':', ':'] + join_segments(tail)).len() as int] == ']'
            || s[1 + (join_segments(head) + seq![':', ':'] + join_segments(tail)).len() as int] == '%',
    ensures
        read_ipv6(s, 1) == Some(
            (
                segments_value(head + Seq::new((8 - head.len() - tail.len()) as nat, |j: int| 0u16) + tail) as u128,
                1 + (join_segments(head) + seq![':', ':'] + join_segments(tail)).len() as int,
            ),
        ),
{
    let jh = join_segments(head);
    let jt = join_segments(tail);
    let x = jh + seq![':', ':'] + jt;
    let end: int = 1 + x.len() as int;
    let e: int = 1 + jh.len() as int;
    assert(groups_text(0, head) == jh) by {
        if head.len() == 0 {
            assert(jh == Seq::<char>::empty());
        }
    }
    assert(groups_text(0, tail) == jt) by {
        if tail.len() == 0 {
            assert(jt == Seq::<char>::empty());
        }
    }
    assert(s[e] == ':' && s[e + 1] == ':') by {
        assert(s[e] == s.subrange(1, end)[jh.len() as int]);
        assert(s[e + 1] == s.subrange(1, end)[jh.len() as int + 1]);
    }
    assert(s.subrange(1, e) == jh) by {
        lemma_found_prefix(s, 1, x, jh.len() as int);
        assert(x.subrange(0, jh.len() as int) =~= jh);
    }
    assert(s.subrange(e + 2, end) == jt) by {
        lemma_found_suffix(s, 1, x, jh.len() as int + 2);
        assert(x.subrange(jh.len() as int + 2, x.len() as int) =~= jt);
    }
    assert(read_groups(s, 1, 0, 8, seq![]) == (head, e, false)) by {
        if head.len() > 0 {
            assert(radix_digit(s[e], 16) is None);
            assert(read_number(s, e + 1, 16, 4, true, 0xffff) is None);
        } else {
            assert(read_number(s, 1, 16, 4, true, 0xffff) is None);
        }
        lemma_read_groups(s, 1, 0, 8, seq![], head);
        assert(seq![] + head =~= head);
    }
    let limit: int = 8 - (head.len() + 1);
    assert(read_groups(s, e + 2, 0, limit, seq![]) == (tail, end, false)) by {
        assert(radix_digit(s[end], 16) is None);
        if tail.len() == 0 {
            assert(read_number(s, e + 2, 16, 4, true, 0xffff) is None);
        }
        lemma_read_groups(s, e + 2, 0, limit, seq![], tail);
        assert(seq![] + tail =~= tail);
    }
}

/// The segments of an address, written joined by `:` at 1 in a text
/// without `.` and followed by `]` or `%`, read back as the address.
#[verifier::spinoff_prover]
proof fn lemma_read_ipv6_full(s: Seq<char>, ip: u128)
    requires
        !s.contains('.'),
        1 + (join_segments(segments(ip)).len() as int) < s.len(),
        s.subrange(1, 1 + join_segments(segments(ip)).len() as int) == join_segments(segments(ip)),
        s[1 + join_segments(segments(ip)).len() as int] == ']' || s[1 + join_segments(segments(ip)).len() as int]
            == '%',
    ensures
        read_ipv6(s, 1) == Some((ip, 1 + join_segments(segments(ip)).len() as int)),
{
    let segs = segments(ip);
    let x = join_segments(segs);
    lemma_segments_value(ip);
    assert(radix_digit(s[1 + x.len() as int], 16) is None);
    assert(groups_text(0, segs) == x);
    lemma_read_groups(s, 1, 0, 8, seq![], segs);
    assert(seq![] + segs =~= segs);
}

/// The segment text of an address that is not IPv4-mapped, written at 1
/// in a text without `.` and followed by `]` or `%`, reads back as the
/// address.
#[verifier::spinoff_prover]
proof fn lemma_read_ipv6_plain(s: Seq<char>, ip: u128)
    requires
        !is_v4_mapped(ip),
        !s.contains('.'),
        1 + (ipv6_text(ip).len() as int) < s.len(),
        s.subrange(1, 1 + ipv6_text(ip).len() as int) == ipv6_text(ip),
        s[1 + ipv6_text(ip).len() as int] == ']' || s[1 + ipv6_text(ip).len() as int] == '%',
    ensures
        read_ipv6(s, 1) == Some((ip, 1 + ipv6_text(ip).len() as int)),
{
    let segs = segments(ip);
    let (start, len) = longest_zero_run(segs);
    lemma_longest_zero_run(segs);
    if len > 1 {
        let head = segs.subrange(0, start);
        let tail = segs.subrange(start + len, 8);
        lemma_read_ipv6_compressed(s, head, tail);
        lemma_segments_value(ip);
        assert(head + Seq::new((8 - head.len() - tail.len()) as nat, |j: int| 0u16) + tail =~= segs);
    } else {
        lemma_read_ipv6_full(s, ip);
    }
}

/// The segments of an IPv4-mapped address: five zeros, `ffff`, then the
/// two halves of the IPv4 address.
#[verifier::spinoff_prover]
proof fn lemma_mapped_segments(ip: u128)
    requires
        is_v4_mapped(ip),
    ensures
        segments(ip) =~= seq![0u16, 0u16, 0u16, 0u16, 0u16, 0xffffu16]
            + seq![(((ip % 0x1_0000_0000) as u32) / 0x1_0000) as u16, (((ip % 0x1_0000_0000) as u32) % 0x1_0000) as u16],
{
    let low = ip % 0x1_0000_0000;
    assert(ip == 0xffff * 0x1_0000_0000 + low);
    assert(ip < 0x1_0000_0000_0000);
    assert(segment(ip, 0) == 0) by {
        assert(ip / 0x1_0000_0000_0000_0000_0000_0000_0000u128 == 0);
    }
    assert(segment(ip, 1) == 0) by {
        assert(ip / 0x1_0000_0000_0000_0000_0000_0000u128 == 0);
    }
    assert(segment(ip, 2) == 0) by {
        assert(ip / 0x1_0000_0000_0000_0000_0000u128 == 0);
    }
    assert(segment(ip, 3) == 0) by {
        assert(ip / 0x1_0000_0000_0000_0000u128 == 0);
    }
    assert(segment(ip, 4) == 0) by {
        assert(ip / 0x1_0000_0000_0000u128 == 0);
    }
    assert(segment(ip, 5) == 0xffff) by {
        assert(ip / 0x1_0000_0000u128 == 0xffff);
    }
    assert(segment(ip, 6) == low / 0x1_0000) by {
        assert(ip / 0x1_0000 == 0xffff * 0x1_0000 + low / 0x1_0000);
    }
    assert(segment(ip, 7) == low % 0x1_0000) by {
        assert(ip / 1u128 == ip);
        assert(ip % 0x1_0000 == low % 0x1_0000);
    }
}

proof fn lemma_mapped_head(s: Seq<char>)
    requires
        s.len() > 1,
        s[1] == ':',
    ensures
        read_groups(s, 1, 0, 8, seq![]) == (Seq::<u16>::empty(), 1int, false),
{
    assert(digit_run(s, 1, 10) == 0);
    assert(digit_run(s, 1, 16) == 0);
}

proof fn lemma_no_ipv4_at_letter(s: Seq<char>, i: int)
    requires
        0 <= i < s.len(),
        radix_digit(s[i], 10) is None,
    ensures
        read_ipv4(s, i) is None,
{
    assert(digit_run(s, i, 10) == 0);
}

proof fn lemma_mapped_low(s: Seq<char>, low: u32, end: int)
    requires
        read_embedded_ipv4(s, 7, 1) == Some((low, end)),
    ensures
        read_groups(s, 7, 1, 7, seq![0xffffu16]) == (
            seq![0xffffu16, (low / 0x1_0000) as u16, (low % 0x1_0000) as u16],
            end,
            true,
        ),
{
}

proof fn lemma_ffff_text()
    ensures
        hex_text(0xffff) == seq!['f', 'f', 'f', 'f'],
{
    reveal_with_fuel(hex_text, 4);
    assert(hex_digit_char(15) == 'f');
}

#[verifier::spinoff_prover]
proof fn lemma_mapped_tail(s: Seq<char>, low: u32, end: int)
    requires
        end < s.len(),
        s.subrange(3, 7) == seq!['f', 'f', 'f', 'f'],
        s[7] == ':',
        end == 8 + ipv4_text(low).len(),
        s.subrange(8, end) == ipv4_text(low),
        s[end] == ']' || s[end] == '%',
    ensures
        read_groups(s, 3, 0, 7, seq![]) == (
            seq![0xffffu16, (low / 0x1_0000) as u16, (low % 0x1_0000) as u16],
            end,
            true,
        ),
{
    lemma_ffff_text();
    assert(s[3] == s.subrange(3, 7)[0]);
    lemma_read_hex(s, 3, 0xffff);
    assert(read_group(s, 3, 0) == Some((0xffffnat, 7int)));
    lemma_no_ipv4_at_letter(s, 3);
    assert(read_embedded_ipv4(s, 3, 0) is None);
    lemma_read_ipv4_text(s, 8, low);
    assert(read_embedded_ipv4(s, 7, 1) == Some((low, end)));
    lemma_mapped_low(s, low, end);
}

/// The text of an IPv4-mapped address, written at 1 and followed by `]` or
/// `%`, reads back as the address.
#[verifier::spinoff_prover]
proof fn lemma_read_ipv6_mapped(s: Seq<char>, ip: u128)
    requires
        is_v4_mapped(ip),
        1 + (ipv6_text(ip).len() as int) < s.len(),
        s.subrange(1, 1 + ipv6_text(ip).len() as int) == ipv6_text(ip),
        s[1 + ipv6_text(ip).len() as int] == ']' || s[1 + ipv6_text(ip).len() as int] == '%',
    ensures
        read_ipv6(s, 1) == Some((ip, 1 + ipv6_text(ip).len() as int)),
{
    let low = (ip % 0x1_0000_0000) as u32;
    let v4 = ipv4_text(low);
    let x = ipv6_text(ip);
    let pre = seq![':', ':', 'f', 'f', 'f', 'f', ':'];
    assert(x == pre + v4);
    let end: int = 1 + x.len() as int;
    assert forall|j: int| 0 <= j < 7 implies s[1 + j] == #[trigger] pre[j] by {
        assert(s[1 + j] == s.subrange(1, end)[j]);
    }
    assert(s[1] == ':' && s[2] == ':' && s[7] == ':');
    assert(s.subrange(3, 7) =~= seq!['f', 'f', 'f', 'f']) by {
        assert(s[3] == pre[2] && s[4] == pre[3] && s[5] == pre[4] && s[6] == pre[5]);
    }
    assert(s.subrange(8, end) == v4) by {
        lemma_found_suffix(s, 1, x, 7);
        assert(x.subrange(7, x.len() as int) =~= v4);
    }
    lemma_mapped_head(s);
    lemma_mapped_tail(s, low, end);
    let tail = seq![0xffffu16, (low / 0x1_0000) as u16, (low % 0x1_0000) as u16];
    lemma_mapped_segments(ip);
    lemma_segments_value(ip);
    assert(Seq::<u16>::empty() + Seq::new(5, |j: int| 0u16) + tail =~= segments(ip));
}

proof fn lemma_lacks_concat(a: Seq<char>, b: Seq<char>, c: char)
    requires
        !a.contains(c),
        !b.contains(c),
    ensures
        !(a + b).contains(c),
{
    if (a + b).contains(c) {
        let i = choose|i: int| 0 <= i < (a + b).len() && (a + b)[i] == c;
        if i < a.len() {
            assert(a[i] == c);
        } else {
            assert(b[i - a.len()] == c);
        }
    }
}

proof fn lemma_lacks_small(t: Seq<char>, c: char)
    requires
        forall|i: int| 0 <= i < t.len() ==> t[i] != c,
    ensures
        !t.contains(c),
{
}

proof fn lemma_decimal_lacks(n: nat, c: char)
    requires
        !is_digit(c),
    ensures
        !decimal(n).contains(c),
{
    lemma_decimal(n);
    if decimal(n).contains(c) {
        let i = choose|i: int| 0 <= i < decimal(n).len() && decimal(n)[i] == c;
        assert(is_digit(decimal(n)[i]));
    }
}

/// The IPv4 text holds nothing but digits and dots.
proof fn lemma_ipv4_text_lacks(ip: u32, c: char)
    requires
        !is_digit(c),
        c != '.',
    ensures
        !ipv4_text(ip).contains(c),
{
    let dot = seq!['.'];
    lemma_lacks_small(dot, c);
    let d0 = decimal(octet(ip, 0));
    let d1 = decimal(octet(ip, 1));
    let d2 = decimal(octet(ip, 2));
    let d3 = decimal(octet(ip, 3));
    lemma_decimal_lacks(octet(ip, 0), c);
    lemma_decimal_lacks(octet(ip, 1), c);
    lemma_decimal_lacks(octet(ip, 2), c);
    lemma_decimal_lacks(octet(ip, 3), c);
    lemma_lacks_concat(d0, dot, c);
    lemma_lacks_concat(d0 + dot, d1, c);
    lemma_lacks_concat(d0 + dot + d1, dot, c);
    lemma_lacks_concat(d0 + dot + d1 + dot, d2, c);
    lemma_lacks_concat(d0 + dot + d1 + dot + d2, dot, c);
    lemma_lacks_concat(d0 + dot + d1 + dot + d2 + dot, d3, c);
}

/// The IPv6 text holds nothing but hex digits and `:`, and dots only for
/// an IPv4-mapped address.
#[verifier::spinoff_prover]
proof fn lemma_ipv6_text_lacks(ip: u128, c: char)
    requires
        radix_digit(c, 16) is None,
        c != ':',
        is_v4_mapped(ip) ==> c != '.',
    ensures
        !ipv6_text(ip).contains(c),
{
    if is_v4_mapped(ip) {
        let pre = seq![':', ':', 'f', 'f', 'f', 'f', ':'];
        assert(forall|i: int| 0 <= i < pre.len() ==> radix_digit(pre[i], 16) is Some || pre[i] == ':');
        lemma_lacks_small(pre, c);
        lemma_ipv4_text_lacks((ip % 0x1_0000_0000) as u32, c);
        lemma_lacks_concat(pre, ipv4_text((ip % 0x1_0000_0000) as u32), c);
    } else {
        let segs = segments(ip);
        let (start, len) = longest_zero_run(segs);
        lemma_longest_zero_run(segs);
        if len > 1 {
            let jh = join_segments(segs.subrange(0, start));
            let jt = join_segments(segs.subrange(start + len, 8));
            lemma_join_lacks(segs.subrange(0, start), c);
            lemma_join_lacks(segs.subrange(start + len, 8), c);
            let cc = seq![':', ':'];
            lemma_lacks_small(cc, c);
            lemma_lacks_concat(jh, cc, c);
            lemma_lacks_concat(jh + cc, jt, c);
        } else {
            lemma_join_lacks(segs, c);
        }
    }
}

/// The text of a socket address holds no `|`.
pub proof fn lemma_addr_text_no_bar(a: NetAddr)
    ensures
        !addr_text(a).contains('|'),
{
    let c = '|';
    match a {
        NetAddr::V4 { ip, port } => {
            lemma_ipv4_text_lacks(ip, c);
            lemma_decimal_lacks(port as nat, c);
            let colon = seq![':'];
            lemma_lacks_small(colon, c);
            lemma_lacks_concat(ipv4_text(ip), colon, c);
            lemma_lacks_concat(ipv4_text(ip) + colon, decimal(port as nat), c);
        },
        NetAddr::V6 { ip, port, flowinfo, scope_id } => {
            let sc: Seq<char> = if scope_id == 0 {
                seq![]
            } else {
                seq!['%'] + decimal(scope_id as nat)
            };
            lemma_scope_lacks(scope_id, c);
            lemma_decimal_lacks(port as nat, c);
            lemma_v6_socket_lacks(ip, sc, decimal(port as nat), c);
        },
    }
}

/// The text of an IPv6 address written at 1 and followed by `]` or `%`
/// reads back as the address, when the whole text holds no `.` or the
/// address is IPv4-mapped.
proof fn lemma_read_ipv6_text(s: Seq<char>, ip: u128)
    requires
        !is_v4_mapped(ip) ==> !s.contains('.'),
        1 + (ipv6_text(ip).len() as int) < s.len(),
        s.subrange(1, 1 + ipv6_text(ip).len() as int) == ipv6_text(ip),
        s[1 + ipv6_text(ip).len() as int] == ']' || s[1 + ipv6_text(ip).len() as int] == '%',
    ensures
        read_ipv6(s, 1) == Some((ip, 1 + ipv6_text(ip).len() as int)),
{
    if is_v4_mapped(ip) {
        lemma_read_ipv6_mapped(s, ip);
    } else {
        lemma_read_ipv6_plain(s, ip);
    }
}

proof fn lemma_v6_socket_lacks(ip: u128, sc: Seq<char>, dp: Seq<char>, c: char)
    requires
        radix_digit(c, 16) is None,
        c != ':',
        c != '[',
        c != ']',
        is_v4_mapped(ip) ==> c != '.',
        !sc.contains(c),
        !dp.contains(c),
    ensures
        !(seq!['['] + ipv6_text(ip) + sc + seq![']', ':'] + dp).contains(c),
{
    let lb = seq!['['];
    let close = seq![']', ':'];
    lemma_lacks_small(lb, c);
    lemma_lacks_small(close, c);
    lemma_ipv6_text_lacks(ip, c);
    let x = ipv6_text(ip);
    lemma_lacks_concat(lb, x, c);
    lemma_lacks_concat(lb + x, sc, c);
    lemma_lacks_concat(lb + x + sc, close, c);
    lemma_lacks_concat(lb + x + sc + close, dp, c);
}

proof fn lemma_scope_lacks(scope_id: u32, c: char)
    requires
        !is_digit(c),
        c != '%',
    ensures
        !(if scope_id == 0 {
            seq![]
        } else {
            seq!['%'] + decimal(scope_id as nat)
        }).contains(c),
{
    if scope_id != 0 {
        lemma_decimal_lacks(scope_id as nat, c);
        let pc = seq!['%'];
        lemma_lacks_small(pc, c);
        lemma_lacks_concat(pc, decimal(scope_id as nat), c);
    } else {
        lemma_lacks_small(Seq::<char>::empty(), c);
    }
}

/// The text of an IPv6 socket address holds no `.` unless the address is
/// IPv4-mapped.
#[verifier::spinoff_prover]
proof fn lemma_v6_text_no_dot(ip: u128, port: u16, scope_id: u32)
    requires
        !is_v4_mapped(ip),
    ensures
        !addr_text(NetAddr::V6 { ip, port, flowinfo: 0, scope_id }).contains('.'),
{
    let sc: Seq<char> = if scope_id == 0 {
        seq![]
    } else {
        seq!['%'] + decimal(scope_id as nat)
    };
    lemma_scope_lacks(scope_id, '.');
    lemma_decimal_lacks(port as nat, '.');
    lemma_v6_socket_lacks(ip, sc, decimal(port as nat), '.');
}

/// The text of an IPv6 socket address: `[`, the address, the scope when
/// there is one, `]:` and the port.
proof fn lemma_v6_text_parts(ip: u128, port: u16, scope_id: u32)
    ensures
        addr_text(NetAddr::V6 { ip, port, flowinfo: 0, scope_id }) == seq!['['] + ipv6_text(ip) + (if scope_id
            == 0 {
            seq![]
        } else {
            seq!['%'] + decimal(scope_id as nat)
        }) + seq![']', ':'] + decimal(port as nat),
{
}

/// In the text of an IPv6 socket address, the address reads back from 1.
#[verifier::spinoff_prover]
proof fn lemma_v6_text_reads_ip(ip: u128, port: u16, scope_id: u32)
    ensures
        read_ipv6(addr_text(NetAddr::V6 { ip, port, flowinfo: 0, scope_id }), 1) == Some(
            (ip, 1 + ipv6_text(ip).len() as int),
        ),
{
    let s = addr_text(NetAddr::V6 { ip, port, flowinfo: 0, scope_id });
    let x = ipv6_text(ip);
    let sc: Seq<char> = if scope_id == 0 {
        seq![]
    } else {
        seq!['%'] + decimal(scope_id as nat)
    };
    let dp = decimal(port as nat);
    lemma_v6_text_parts(ip, port, scope_id);
    let p: int = 1 + x.len() as int;
    assert(s.subrange(1, p) =~= x);
    assert(s[p] == ']' || s[p] == '%');
    if !is_v4_mapped(ip) {
        lemma_v6_text_no_dot(ip, port, scope_id);
    }
    lemma_read_ipv6_text(s, ip);
}

/// The text of an IPv6 socket address reads back as that address, its
/// flow label excepted: the text does not carry it, and it reads back as 0.
#[verifier::spinoff_prover]
pub proof fn lemma_parse_v6_text(ip: u128, port: u16, scope_id: u32)
    ensures
        parse_addr_spec(addr_text(NetAddr::V6 { ip, port, flowinfo: 0, scope_id })) == Some(
            NetAddr::V6 { ip, port, flowinfo: 0, scope_id },
        ),
{
    let a = NetAddr::V6 { ip, port, flowinfo: 0, scope_id };
    let s = addr_text(a);
    let x = ipv6_text(ip);
    let sc: Seq<char> = if scope_id == 0 {
        seq![]
    } else {
        seq!['%'] + decimal(scope_id as nat)
    };
    let dp = decimal(port as nat);
    lemma_decimal(port as nat);
    lemma_v6_text_parts(ip, port, scope_id);
    let p: int = 1 + x.len() as int;
    let p2: int = p + sc.len() as int;
    assert(s.len() == p2 + 2 + dp.len());
    assert(s[p2] == ']' && s[p2 + 1] == ':');
    assert(s.subrange(p2 + 2, s.len() as int) =~= dp);
    assert(read_socket_v4(s) is None) by {
        assert(digit_run(s, 0, 10) == 0);
    }
    lemma_v6_text_reads_ip(ip, port, scope_id);
    assert(read_scope(s, p) == (scope_id, p2)) by {
        if scope_id != 0 {
            let ds = decimal(scope_id as nat);
            lemma_decimal(scope_id as nat);
            assert(s.subrange(p + 1, p + 1 + ds.len()) =~= ds);
            lemma_read_decimal(s, p + 1, scope_id as nat, 0, true, 0xffff_ffff);
        } else {
            assert(s[p] == ']');
        }
    }
    lemma_read_decimal(s, p2 + 2, port as nat, 0, true, 0xffff);
    assert(read_socket_v6(s) == Some((a, s.len() as int)));
    reveal(parse_addr_spec);
}

/// The addresses whose text keeps everything: all but IPv6 addresses
/// with a flow label, which their text leaves out.
pub open spec fn text_keeps(a: NetAddr) -> bool {
    match a {
        NetAddr::V4 { .. } => true,
        NetAddr::V6 { flowinfo, .. } => flowinfo == 0,
    }
}

/// The text of a socket address reads back as that address, for every
/// address whose text keeps everything.
pub proof fn lemma_parse_addr_text(a: NetAddr)
    requires
        text_keeps(a),
    ensures
        parse_addr_spec(addr_text(a)) == Some(a),
{
    match a {
        NetAddr::V4 { ip, port } => lemma_parse_v4_text(ip, port),
        NetAddr::V6 { ip, port, flowinfo, scope_id } => lemma_parse_v6_text(ip, port, scope_id),
    }
}

} // verus!
