//! The text form of socket addresses, as `<std::net::SocketAddr as FromStr>`
//! reads it: `a.b.c.d:port`, or `[ipv6]:port` with an optional `%scope` before
//! the closing bracket. The text form has no flow information: it reads as zero.
//!
//! The same module writes addresses as `std::net::SocketAddr` displays them.
//!
//! Each reader takes the text and a position and gives the value read with the
//! position after it, or nothing; a failed reader consumes nothing. All the
//! characters of the grammar are ASCII, so reading characters reads the bytes
//! of their UTF-8 encoding one for one.
use vstd::prelude::*;

use crate::address::{IpAddress, SocketAddress};

verus! {

/// The value of `c` as a digit in base 10 or 16.
pub open spec fn digit_value(c: char, radix: u32) -> Option<int> {
    if '0' <= c && c <= '9' {
        Some(c as int - '0' as int)
    } else if radix == 16 && 'a' <= c && c <= 'f' {
        Some(c as int - 'a' as int + 10)
    } else if radix == 16 && 'A' <= c && c <= 'F' {
        Some(c as int - 'A' as int + 10)
    } else {
        None
    }
}

/// How many digits follow position `pos`.
pub open spec fn digit_run(s: Seq<char>, pos: int, radix: u32) -> nat
    decreases s.len() - pos,
{
    if 0 <= pos < s.len() && digit_value(s[pos], radix) is Some {
        1 + digit_run(s, pos + 1, radix)
    } else {
        0
    }
}

/// The value of the `n` digits at position `pos`.
pub open spec fn digits_value(s: Seq<char>, pos: int, n: int, radix: u32) -> int
    decreases n,
{
    if n <= 0 {
        0
    } else {
        digits_value(s, pos, n - 1, radix) * radix + digit_value(s[pos + n - 1], radix)->0
    }
}

/// A number: every digit that follows `pos`, at least one, at most
/// `max_digits` when given, a value at most `max_value`, and no leading zero
/// before further digits unless `allow_zero_prefix`.
pub open spec fn read_number(
    s: Seq<char>,
    pos: int,
    radix: u32,
    max_digits: Option<nat>,
    allow_zero_prefix: bool,
    max_value: int,
) -> Option<(int, int)> {
    let n = digit_run(s, pos, radix);
    let v = digits_value(s, pos, n as int, radix);
    if n == 0 {
        None
    } else if max_digits is Some && n > max_digits->0 {
        None
    } else if v > max_value {
        None
    } else if !allow_zero_prefix && s[pos] == '0' && n > 1 {
        None
    } else {
        Some((v, pos + n))
    }
}

/// The character `c` at position `pos`.
pub open spec fn at(s: Seq<char>, pos: int, c: char) -> bool {
    0 <= pos < s.len() && s[pos] == c
}

/// An IPv4 octet: up to three decimal digits, at most 255, no leading zero.
pub open spec fn read_octet(s: Seq<char>, pos: int) -> Option<(int, int)> {
    read_number(s, pos, 10, Some(3), false, 255)
}

/// A dot, then an octet.
pub open spec fn read_dot_octet(s: Seq<char>, pos: int) -> Option<(int, int)> {
    if at(s, pos, '.') {
        read_octet(s, pos + 1)
    } else {
        None
    }
}

/// Four octets separated by dots.
pub open spec fn read_ipv4(s: Seq<char>, pos: int) -> Option<(Seq<int>, int)> {
    match read_octet(s, pos) {
        None => None,
        Some((a, p1)) => match read_dot_octet(s, p1) {
            None => None,
            Some((b, p2)) => match read_dot_octet(s, p2) {
                None => None,
                Some((c, p3)) => match read_dot_octet(s, p3) {
                    None => None,
                    Some((d, p4)) => Some((seq![a, b, c, d], p4)),
                },
            },
        },
    }
}

/// An IPv6 group: up to four hexadecimal digits.
pub open spec fn read_hex_group(s: Seq<char>, pos: int) -> Option<(int, int)> {
    read_number(s, pos, 16, Some(4), true, 0xffff)
}

/// Groups `i..limit` of an IPv6 address, each after a colon but the first:
/// where two groups are left, an IPv4 address may stand for both, and ends
/// the groups. Gives the groups, the position after them, and whether an IPv4
/// address ended them.
pub open spec fn read_groups(s: Seq<char>, pos: int, i: int, limit: int) -> (Seq<int>, int, bool)
    decreases limit - i,
{
    if i >= limit {
        (Seq::empty(), pos, false)
    } else if i > 0 && !at(s, pos, ':') {
        (Seq::empty(), pos, false)
    } else {
        let q = if i > 0 {
            pos + 1
        } else {
            pos
        };
        if i < limit - 1 && read_ipv4(s, q) is Some {
            let o = (read_ipv4(s, q)->0).0;
            (seq![o[0] * 256 + o[1], o[2] * 256 + o[3]], (read_ipv4(s, q)->0).1, true)
        } else {
            match read_hex_group(s, q) {
                None => (Seq::empty(), pos, false),
                Some((g, p)) => {
                    let rest = read_groups(s, p, i + 1, limit);
                    (seq![g] + rest.0, rest.1, rest.2)
                },
            }
        }
    }
}

/// An IPv6 address: eight groups, or the groups before and after one `::`
/// standing for at least one zero group; an IPv4 address may end the groups,
/// but not those before `::`.
pub open spec fn read_ipv6(s: Seq<char>, pos: int) -> Option<(Seq<int>, int)> {
    let head = read_groups(s, pos, 0, 8);
    if head.0.len() == 8 {
        Some((head.0, head.1))
    } else if head.2 {
        None
    } else if !(at(s, head.1, ':') && at(s, head.1 + 1, ':')) {
        None
    } else {
        let tail = read_groups(s, head.1 + 2, 0, 8 - (head.0.len() + 1));
        Some(
            (
                head.0 + Seq::new((8 - head.0.len() - tail.0.len()) as nat, |k: int| 0int)
                    + tail.0,
                tail.1,
            ),
        )
    }
}

/// A colon, then a port: decimal digits with a value of at most 65535.
pub open spec fn read_port(s: Seq<char>, pos: int) -> Option<(int, int)> {
    if at(s, pos, ':') {
        read_number(s, pos + 1, 10, None, true, 0xffff)
    } else {
        None
    }
}

/// After an IPv6 address: an optional `%` and a decimal scope id that fits in
/// 32 bits. Gives the scope id (zero when there is none) and the position
/// after it.
pub open spec fn read_scope(s: Seq<char>, pos: int) -> (int, int) {
    if at(s, pos, '%') && read_number(s, pos + 1, 10, None, true, 0xffff_ffff) is Some {
        read_number(s, pos + 1, 10, None, true, 0xffff_ffff)->0
    } else {
        (0, pos)
    }
}

pub open spec fn v4_array(o: Seq<int>) -> [u8; 4] {
    [o[0] as u8, o[1] as u8, o[2] as u8, o[3] as u8]
}

pub open spec fn v6_array(g: Seq<int>) -> [u16; 8] {
    [
        g[0] as u16,
        g[1] as u16,
        g[2] as u16,
        g[3] as u16,
        g[4] as u16,
        g[5] as u16,
        g[6] as u16,
        g[7] as u16,
    ]
}

/// The socket address that the whole of `s` names, if any.
pub open spec fn socket_address_spec(s: Seq<char>) -> Option<SocketAddress> {
    let v4 = read_ipv4(s, 0);
    if v4 is Some && read_port(s, (v4->0).1) is Some && (read_port(s, (v4->0).1)->0).1 == s.len() {
        Some(
            SocketAddress {
                ip: IpAddress::V4(v4_array((v4->0).0)),
                port: (read_port(s, (v4->0).1)->0).0 as u16,
                flowinfo: 0,
                scope_id: 0,
            },
        )
    } else if at(s, 0, '[') && read_ipv6(s, 1) is Some {
        let v6 = read_ipv6(s, 1)->0;
        let scope = read_scope(s, v6.1);
        let close = scope.1;
        if at(s, close, ']') && read_port(s, close + 1) is Some && (read_port(s, close + 1)->0).1
            == s.len() {
            Some(
                SocketAddress {
                    ip: IpAddress::V6(v6_array(v6.0)),
                    port: (read_port(s, close + 1)->0).0 as u16,
                    flowinfo: 0,
                    scope_id: scope.0 as u32,
                },
            )
        } else {
            None
        }
    } else {
        None
    }
}

fn digit_value_exec(c: char, radix: u32) -> (r: Option<u32>)
    requires
        radix == 10 || radix == 16,
    ensures
        r is Some <==> digit_value(c, radix) is Some,
        r is Some ==> r->0 as int == digit_value(c, radix)->0 && r->0 < radix,
{
    if '0' <= c && c <= '9' {
        Some(c as u32 - '0' as u32)
    } else if radix == 16 && 'a' <= c && c <= 'f' {
        Some(c as u32 - 'a' as u32 + 10)
    } else if radix == 16 && 'A' <= c && c <= 'F' {
        Some(c as u32 - 'A' as u32 + 10)
    } else {
        None
    }
}

proof fn lemma_digits_grow(s: Seq<char>, pos: int, n: int, radix: u32)
    requires
        radix == 10 || radix == 16,
        n >= 0,
        forall|k: int| pos <= k < pos + n ==> digit_value(#[trigger] s[k], radix) is Some,
    ensures
        digits_value(s, pos, n, radix) >= 0,
    decreases n,
{
    if n > 0 {
        lemma_digits_grow(s, pos, n - 1, radix);
        assert(digit_value(s[pos + n - 1], radix) is Some);
    }
}

proof fn lemma_digit_run_stops(s: Seq<char>, pos: int, k: int, radix: u32)
    requires
        0 <= pos <= k,
        forall|j: int| pos <= j < k ==> 0 <= j < s.len() && digit_value(#[trigger] s[j], radix) is Some,
        !(0 <= k < s.len() && digit_value(s[k], radix) is Some),
    ensures
        digit_run(s, pos, radix) == k - pos,
    decreases k - pos,
{
    if pos < k {
        lemma_digit_run_stops(s, pos + 1, k, radix);
    }
}

/// Reads a number as `read_number` describes it.
fn read_number_exec(
    s: &Vec<char>,
    pos: usize,
    radix: u32,
    max_digits: Option<usize>,
    allow_zero_prefix: bool,
    max_value: u32,
) -> (r: Option<(u32, usize)>)
    requires
        radix == 10 || radix == 16,
        pos <= s@.len(),
    ensures
        match r {
            None => read_number(
                s@,
                pos as int,
                radix,
                match max_digits {
                    Some(m) => Some(m as nat),
                    None => None,
                },
                allow_zero_prefix,
                max_value as int,
            ) is None,
            Some((v, p)) => read_number(
                s@,
                pos as int,
                radix,
                match max_digits {
                    Some(m) => Some(m as nat),
                    None => None,
                },
                allow_zero_prefix,
                max_value as int,
            ) == Some((v as int, p as int)) && pos < p <= s@.len() && v <= max_value,
        },
{
    let ghost md: Option<nat> = match max_digits {
        Some(m) => Some(m as nat),
        None => None,
    };
    let mut i = pos;
    let mut value: u32 = 0;
    let mut overflow = false;
    while i < s.len() && digit_value_exec(s[i], radix).is_some()
        invariant
            radix == 10 || radix == 16,
            pos <= i <= s@.len(),
            forall|j: int| pos <= j < i ==> digit_value(#[trigger] s@[j], radix) is Some,
            !overflow ==> value as int == digits_value(s@, pos as int, i - pos, radix),
            !overflow ==> value <= max_value,
            overflow ==> digits_value(s@, pos as int, i - pos, radix) > max_value,
        decreases s.len() - i,
    {
        let d = digit_value_exec(s[i], radix).unwrap();
        proof {
            lemma_digits_grow(s@, pos as int, i - pos, radix);
            assert(digits_value(s@, pos as int, i + 1 - pos, radix) == digits_value(
                s@,
                pos as int,
                i - pos,
                radix,
            ) * radix + d);
        }
        if !overflow {
            if d > max_value || value > (max_value - d) / radix {
                overflow = true;
                assert(value * radix + d > max_value) by (nonlinear_arith)
                    requires
                        d > max_value || value > (max_value - d) / (radix as int),
                        radix > 0,
                ;
            } else {
                assert(value * radix + d <= max_value) by (nonlinear_arith)
                    requires
                        value <= (max_value - d) / (radix as int),
                        radix > 0,
                        d <= max_value,
                ;
                value = value * radix + d;
            }
        } else {
            assert(digits_value(s@, pos as int, i - pos, radix) * radix + d > max_value) by (
            nonlinear_arith)
                requires
                    digits_value(s@, pos as int, i - pos, radix) > max_value,
                    radix >= 10,
                    d >= 0,
                    max_value >= 0,
            ;
        }
        i = i + 1;
    }
    proof {
        lemma_digit_run_stops(s@, pos as int, i as int, radix);
    }
    let n = i - pos;
    if n == 0 {
        return None;
    }
    if let Some(m) = max_digits {
        if n > m {
            return None;
        }
    }
    if overflow {
        return None;
    }
    if !allow_zero_prefix && s[pos] == '0' && n > 1 {
        return None;
    }
    Some((value, i))
}

pub open spec fn ints(v: Seq<u32>) -> Seq<int> {
    v.map_values(|x: u32| x as int)
}

fn at_exec(s: &Vec<char>, pos: usize, c: char) -> (r: bool)
    ensures
        r == at(s@, pos as int, c),
        r ==> pos < s.len(),
{
    pos < s.len() && s[pos] == c
}

fn read_octet_exec(s: &Vec<char>, pos: usize) -> (r: Option<(u32, usize)>)
    requires
        pos <= s@.len(),
    ensures
        match r {
            None => read_octet(s@, pos as int) is None,
            Some((v, p)) => read_octet(s@, pos as int) == Some((v as int, p as int)) && p <= s@.len() && v <= 255,
        },
{
    read_number_exec(s, pos, 10, Some(3), false, 255)
}

fn read_dot_octet_exec(s: &Vec<char>, pos: usize) -> (r: Option<(u32, usize)>)
    requires
        pos <= s@.len(),
    ensures
        match r {
            None => read_dot_octet(s@, pos as int) is None,
            Some((v, p)) => read_dot_octet(s@, pos as int) == Some((v as int, p as int)) && p <= s@.len() && v <= 255,
        },
{
    if at_exec(s, pos, '.') {
        read_octet_exec(s, pos + 1)
    } else {
        None
    }
}

fn read_ipv4_exec(s: &Vec<char>, pos: usize) -> (r: Option<(Vec<u32>, usize)>)
    requires
        pos <= s@.len(),
    ensures
        match r {
            None => read_ipv4(s@, pos as int) is None,
            Some((v, p)) => read_ipv4(s@, pos as int) == Some((ints(v@), p as int)) && p <= s@.len()
                && v@.len() == 4 && forall|k: int| 0 <= k < 4 ==> #[trigger] v@[k] <= 255,
        },
{
    let (a, p1) = match read_octet_exec(s, pos) {
        None => return None,
        Some(x) => x,
    };
    let (b, p2) = match read_dot_octet_exec(s, p1) {
        None => return None,
        Some(x) => x,
    };
    let (c, p3) = match read_dot_octet_exec(s, p2) {
        None => return None,
        Some(x) => x,
    };
    let (d, p4) = match read_dot_octet_exec(s, p3) {
        None => return None,
        Some(x) => x,
    };
    let v = vec![a, b, c, d];
    assert(ints(v@) =~= seq![a as int, b as int, c as int, d as int]);
    Some((v, p4))
}

fn read_hex_group_exec(s: &Vec<char>, pos: usize) -> (r: Option<(u32, usize)>)
    requires
        pos <= s@.len(),
    ensures
        match r {
            None => read_hex_group(s@, pos as int) is None,
            Some((v, p)) => read_hex_group(s@, pos as int) == Some((v as int, p as int)) && p <= s@.len() && v <= 0xffff,
        },
{
    read_number_exec(s, pos, 16, Some(4), true, 0xffff)
}

fn read_groups_exec(s: &Vec<char>, pos: usize, i: usize, limit: usize) -> (r: (Vec<u32>, usize, bool))
    requires
        pos <= s@.len(),
        limit <= 8,
    ensures
        (ints(r.0@), r.1 as int, r.2) == read_groups(s@, pos as int, i as int, limit as int),
        r.1 <= s@.len(),
        r.0@.len() <= limit - i || i >= limit,
    decreases limit - i,
{
    if i >= limit {
        return (Vec::new(), pos, false);
    }
    if i > 0 && !at_exec(s, pos, ':') {
        return (Vec::new(), pos, false);
    }
    let q = if i > 0 {
        pos + 1
    } else {
        pos
    };
    if i + 1 < limit {
        if let Some((o, p)) = read_ipv4_exec(s, q) {
            let v = vec![o[0] * 256 + o[1], o[2] * 256 + o[3]];
            assert(ints(v@) =~= seq![ints(o@)[0] * 256 + ints(o@)[1], ints(o@)[2] * 256 + ints(o@)[3]]);
            return (v, p, true);
        }
    }
    match read_hex_group_exec(s, q) {
        None => (Vec::new(), pos, false),
        Some((g, p)) => {
            let (rest, p2, v4) = read_groups_exec(s, p, i + 1, limit);
            let mut v = vec![g];
            let mut rest = rest;
            v.append(&mut rest);
            assert(ints(v@) =~= seq![g as int] + read_groups(s@, p as int, i + 1, limit as int).0);
            (v, p2, v4)
        },
    }
}

fn read_ipv6_exec(s: &Vec<char>, pos: usize) -> (r: Option<(Vec<u32>, usize)>)
    requires
        pos <= s@.len(),
    ensures
        match r {
            None => read_ipv6(s@, pos as int) is None,
            Some((v, p)) => read_ipv6(s@, pos as int) == Some((ints(v@), p as int)) && p <= s@.len()
                && v@.len() == 8 && forall|k: int| 0 <= k < 8 ==> #[trigger] v@[k] <= 0xffff,
        },
{
    let (head, p1, v4) = read_groups_exec(s, pos, 0, 8);
    proof {
        lemma_groups_bounded(s@, pos as int, 0, 8);
    }
    assert forall|k: int| 0 <= k < head@.len() implies #[trigger] head@[k] <= 0xffff by {
        assert(ints(head@)[k] == head@[k] as int);
    }
    if head.len() == 8 {
        return Some((head, p1));
    }
    if v4 {
        return None;
    }
    if !(at_exec(s, p1, ':') && at_exec(s, p1 + 1, ':')) {
        return None;
    }
    let limit = 8 - (head.len() + 1);
    let (tail, p2, _) = read_groups_exec(s, p1 + 2, 0, limit);
    proof {
        lemma_groups_bounded(s@, p1 + 2, 0, limit as int);
    }
    assert forall|k: int| 0 <= k < tail@.len() implies #[trigger] tail@[k] <= 0xffff by {
        assert(ints(tail@)[k] == tail@[k] as int);
    }
    let zeros = 8 - head.len() - tail.len();
    let mut v = head;
    let mut k: usize = 0;
    let ghost h = v@;
    while k < zeros
        invariant
            k <= zeros,
            v@ == h + Seq::new(k as nat, |j: int| 0u32),
        decreases zeros - k,
    {
        v.push(0);
        k = k + 1;
    }
    let ghost t = tail@;
    let mut tail = tail;
    v.append(&mut tail);
    assert(ints(v@) =~= ints(h) + Seq::new(zeros as nat, |j: int| 0int) + read_groups(
        s@,
        p1 + 2,
        0,
        limit as int,
    ).0);
    assert forall|k: int| 0 <= k < 8 implies #[trigger] v@[k] <= 0xffff by {
        if k < h.len() {
            assert(v@[k] == h[k]);
        } else if k < h.len() + zeros {
            assert(v@[k] == 0);
        } else {
            assert(v@[k] == t[k - h.len() - zeros]);
        }
    }
    Some((v, p2))
}

/// The groups read are 16-bit values, at most `limit - i` of them.
proof fn lemma_groups_bounded(s: Seq<char>, pos: int, i: int, limit: int)
    ensures
        read_groups(s, pos, i, limit).0.len() <= if i < limit { limit - i } else { 0 },
        forall|k: int|
            0 <= k < read_groups(s, pos, i, limit).0.len() ==> 0 <= #[trigger] read_groups(
                s,
                pos,
                i,
                limit,
            ).0[k] <= 0xffff,
    decreases limit - i,
{
    if i < limit && !(i > 0 && !at(s, pos, ':')) {
        let q = if i > 0 {
            pos + 1
        } else {
            pos
        };
        if !(i < limit - 1 && read_ipv4(s, q) is Some) {
            if let Some((g, p)) = read_hex_group(s, q) {
                lemma_groups_bounded(s, p, i + 1, limit);
                lemma_number_bounds(s, q, 16, Some(4nat), true, 0xffff);
            }
        } else {
            lemma_ipv4_bounds(s, q);
        }
    }
}

proof fn lemma_number_bounds(
    s: Seq<char>,
    pos: int,
    radix: u32,
    max_digits: Option<nat>,
    allow_zero_prefix: bool,
    max_value: int,
)
    requires
        radix == 10 || radix == 16,
    ensures
        read_number(s, pos, radix, max_digits, allow_zero_prefix, max_value) matches Some((v, p))
            ==> 0 <= v <= max_value && pos < p,
{
    let n = digit_run(s, pos, radix);
    lemma_run_digits(s, pos, radix);
    lemma_digits_grow(s, pos, n as int, radix);
}

proof fn lemma_run_digits(s: Seq<char>, pos: int, radix: u32)
    ensures
        forall|k: int| pos <= k < pos + digit_run(s, pos, radix) ==> digit_value(#[trigger] s[k], radix) is Some,
    decreases s.len() - pos,
{
    if 0 <= pos < s.len() && digit_value(s[pos], radix) is Some {
        lemma_run_digits(s, pos + 1, radix);
    }
}

proof fn lemma_ipv4_bounds(s: Seq<char>, pos: int)
    ensures
        read_ipv4(s, pos) matches Some((o, p)) ==> o.len() == 4 && 0 <= o[0] * 256 + o[1] <= 0xffff
            && 0 <= o[2] * 256 + o[3] <= 0xffff,
{
    if let Some((o, p)) = read_ipv4(s, pos) {
        let (a, p1) = read_octet(s, pos)->0;
        lemma_number_bounds(s, pos, 10, Some(3nat), false, 255);
        lemma_number_bounds(s, p1 + 1, 10, Some(3nat), false, 255);
        let (b, p2) = read_dot_octet(s, p1)->0;
        lemma_number_bounds(s, p2 + 1, 10, Some(3nat), false, 255);
        let (c, p3) = read_dot_octet(s, p2)->0;
        lemma_number_bounds(s, p3 + 1, 10, Some(3nat), false, 255);
    }
}

fn read_port_exec(s: &Vec<char>, pos: usize) -> (r: Option<(u32, usize)>)
    requires
        pos <= s@.len(),
    ensures
        match r {
            None => read_port(s@, pos as int) is None,
            Some((v, p)) => read_port(s@, pos as int) == Some((v as int, p as int)) && v <= 0xffff,
        },
{
    if at_exec(s, pos, ':') {
        read_number_exec(s, pos + 1, 10, None, true, 0xffff)
    } else {
        None
    }
}

fn read_scope_exec(s: &Vec<char>, pos: usize) -> (r: (u32, usize))
    requires
        pos <= s@.len(),
    ensures
        (r.0 as int, r.1 as int) == read_scope(s@, pos as int),
        r.1 <= s@.len(),
{
    if at_exec(s, pos, '%') {
        match read_number_exec(s, pos + 1, 10, None, true, 0xffff_ffff) {
            Some((v, p)) => (v, p),
            None => (0, pos),
        }
    } else {
        (0, pos)
    }
}

/// Reads the whole of `s` as a socket address.
pub fn parse_socket_address(s: &Vec<char>) -> (r: Option<SocketAddress>)
    ensures
        r == socket_address_spec(s@),
{
    if let Some((o, p)) = read_ipv4_exec(s, 0) {
        if let Some((port, q)) = read_port_exec(s, p) {
            if q == s.len() {
                let ip = IpAddress::V4([o[0] as u8, o[1] as u8, o[2] as u8, o[3] as u8]);
                assert(ip == IpAddress::V4(v4_array(ints(o@))));
                return Some(SocketAddress { ip, port: port as u16, flowinfo: 0, scope_id: 0 });
            }
        }
        return None;
    }
    if !at_exec(s, 0, '[') {
        return None;
    }
    let (g, p) = match read_ipv6_exec(s, 1) {
        Some(x) => x,
        None => return None,
    };
    let (scope_id, close) = read_scope_exec(s, p);
    if !at_exec(s, close, ']') {
        return None;
    }
    match read_port_exec(s, close + 1) {
        Some((port, q)) => {
            if q != s.len() {
                return None;
            }
            let ip = IpAddress::V6(
                [
                    g[0] as u16,
                    g[1] as u16,
                    g[2] as u16,
                    g[3] as u16,
                    g[4] as u16,
                    g[5] as u16,
                    g[6] as u16,
                    g[7] as u16,
                ],
            );
            assert(ip == IpAddress::V6(v6_array(ints(g@))));
            Some(SocketAddress { ip, port: port as u16, flowinfo: 0, scope_id })
        },
        None => None,
    }
}

// Writing addresses.

/// The digit for the value `d` (0 to 15), in lower case.
pub open spec fn digit_char(d: int) -> char {
    if d < 10 {
        ('0' as int + d) as char
    } else {
        ('a' as int + d - 10) as char
    }
}

/// The digits of `n` in base `radix`, without leading zeros.
pub open spec fn number_text(n: nat, radix: nat) -> Seq<char>
    decreases n,
{
    if radix < 2 || n < radix {
        seq![digit_char(n as int)]
    } else {
        proof {
            vstd::arithmetic::div_mod::lemma_div_decreases(n as int, radix as int);
        }
        number_text(n / radix, radix).push(digit_char((n % radix) as int))
    }
}

/// `a.b.c.d` in decimal.
pub open spec fn ipv4_text(o: [u8; 4]) -> Seq<char> {
    number_text(o[0] as nat, 10) + "."@ + number_text(o[1] as nat, 10) + "."@ + number_text(
        o[2] as nat,
        10,
    ) + "."@ + number_text(o[3] as nat, 10)
}

/// Groups in lower-case hexadecimal, separated by colons.
pub open spec fn groups_text(g: Seq<u16>) -> Seq<char>
    decreases g.len(),
{
    if g.len() == 0 {
        Seq::empty()
    } else if g.len() == 1 {
        number_text(g[0] as nat, 16)
    } else {
        groups_text(g.drop_last()) + ":"@ + number_text(g.last() as nat, 16)
    }
}

/// How many zero groups start at group `i`.
pub open spec fn zero_run_at(g: [u16; 8], i: int) -> nat
    decreases 8 - i,
{
    if 0 <= i < 8 && g[i] == 0 {
        1 + zero_run_at(g, i + 1)
    } else {
        0
    }
}

/// The longest run of zero groups starting before group `i`, as its start and
/// length: the first one among equally long runs.
pub open spec fn longest_zero_run(g: [u16; 8], i: int) -> (int, nat)
    decreases i,
{
    if i <= 0 {
        (0, 0)
    } else {
        let best = longest_zero_run(g, i - 1);
        if zero_run_at(g, i - 1) > best.1 {
            (i - 1, zero_run_at(g, i - 1))
        } else {
            best
        }
    }
}

/// `g` is an IPv4-mapped address `::ffff:a.b.c.d`.
pub open spec fn ipv4_mapped(g: [u16; 8]) -> bool {
    g[0] == 0 && g[1] == 0 && g[2] == 0 && g[3] == 0 && g[4] == 0 && g[5] == 0xffff
}

/// An IPv6 address as std writes it: an IPv4-mapped address as
/// `::ffff:a.b.c.d`; otherwise the groups in hexadecimal, with the first
/// longest run of at least two zero groups written as `::`.
pub open spec fn ipv6_text(g: [u16; 8]) -> Seq<char> {
    if ipv4_mapped(g) {
        "::ffff:"@ + ipv4_text(
            [(g[6] / 256) as u8, (g[6] % 256) as u8, (g[7] / 256) as u8, (g[7] % 256) as u8],
        )
    } else {
        let (start, len) = longest_zero_run(g, 8);
        if len > 1 {
            groups_text(g@.subrange(0, start)) + "::"@ + groups_text(
                g@.subrange(start + len, 8),
            )
        } else {
            groups_text(g@)
        }
    }
}

/// A socket address as std writes it: `a.b.c.d:port`, `[ipv6]:port`, or
/// `[ipv6%scope]:port` when the scope id is not zero. Flow information is not
/// written.
pub open spec fn socket_address_text(a: SocketAddress) -> Seq<char> {
    match a.ip {
        IpAddress::V4(o) => ipv4_text(o) + ":"@ + number_text(a.port as nat, 10),
        IpAddress::V6(g) => "["@ + ipv6_text(g) + (if a.scope_id == 0 {
            Seq::empty()
        } else {
            "%"@ + number_text(a.scope_id as nat, 10)
        }) + "]:"@ + number_text(a.port as nat, 10),
    }
}

fn digit_exec(d: u32) -> (c: char)
    requires
        d < 16,
    ensures
        c == digit_char(d as int),
{
    let b = d as u8;
    if b < 10 {
        (48u8 + b) as char
    } else {
        (87u8 + b) as char
    }
}

fn push_str(out: &mut String, text: &str)
    ensures
        final(out)@ == old(out)@ + text@,
{
    let chars = crate::text::chars_of(text);
    let mut i: usize = 0;
    while i < chars.len()
        invariant
            chars@ == text@,
            i <= chars@.len(),
            out@ == old(out)@ + text@.take(i as int),
        decreases chars.len() - i,
    {
        out.push(chars[i]);
        assert(text@.take(i + 1) =~= text@.take(i as int).push(text@[i as int]));
        i = i + 1;
    }
    assert(text@.take(chars@.len() as int) =~= text@);
}

fn push_number(out: &mut String, n: u32, radix: u32)
    requires
        radix == 10 || radix == 16,
    ensures
        final(out)@ == old(out)@ + number_text(n as nat, radix as nat),
    decreases n,
{
    if n >= radix {
        push_number(out, n / radix, radix);
    }
    out.push(digit_exec(n % radix));
    proof {
        if n >= radix {
            assert(number_text(n as nat, radix as nat) == number_text(
                (n / radix) as nat,
                radix as nat,
            ).push(digit_char((n % radix) as int)));
        }
    }
}

fn push_ipv4(out: &mut String, o: [u8; 4])
    ensures
        final(out)@ == old(out)@ + ipv4_text(o),
{
    push_number(out, o[0] as u32, 10);
    out.push('.');
    push_number(out, o[1] as u32, 10);
    out.push('.');
    push_number(out, o[2] as u32, 10);
    out.push('.');
    push_number(out, o[3] as u32, 10);
    proof {
        reveal_strlit(".");
    }
    assert(out@ =~= old(out)@ + ipv4_text(o));
}

/// Writes groups `from..to` of `g`.
fn push_groups(out: &mut String, g: &[u16; 8], from: usize, to: usize)
    requires
        from <= to <= 8,
    ensures
        final(out)@ == old(out)@ + groups_text(g@.subrange(from as int, to as int)),
{
    let mut j = from;
    while j < to
        invariant
            from <= j <= to <= 8,
            g@.len() == 8,
            out@ == old(out)@ + groups_text(g@.subrange(from as int, j as int)),
        decreases to - j,
    {
        let ghost before = out@;
        if j > from {
            out.push(':');
        }
        push_number(out, g[j] as u32, 16);
        proof {
            reveal_strlit(":");
            let t = g@.subrange(from as int, j + 1);
            assert(t.drop_last() =~= g@.subrange(from as int, j as int));
            assert(t.last() == g[j as int]);
            if j == from {
                assert(g@.subrange(from as int, j as int).len() == 0);
            }
        }
        assert(out@ =~= old(out)@ + groups_text(g@.subrange(from as int, j + 1)));
        j = j + 1;
    }
}

fn zero_run_exec(g: &[u16; 8], i: usize) -> (r: usize)
    requires
        i <= 8,
    ensures
        r == zero_run_at(*g, i as int),
        r <= 8 - i,
    decreases 8 - i,
{
    if i < 8 && g[i] == 0 {
        1 + zero_run_exec(g, i + 1)
    } else {
        0
    }
}

fn longest_zero_run_exec(g: &[u16; 8]) -> (r: (usize, usize))
    ensures
        (r.0 as int, r.1 as nat) == longest_zero_run(*g, 8),
        r.0 + r.1 <= 8,
{
    let mut start: usize = 0;
    let mut len: usize = 0;
    let mut i: usize = 0;
    while i < 8
        invariant
            i <= 8,
            (start as int, len as nat) == longest_zero_run(*g, i as int),
            start + len <= 8,
        decreases 8 - i,
    {
        let run = zero_run_exec(g, i);
        if run > len {
            start = i;
            len = run;
        }
        i = i + 1;
    }
    (start, len)
}

fn push_ipv6(out: &mut String, g: [u16; 8])
    ensures
        final(out)@ == old(out)@ + ipv6_text(g),
{
    if g[0] == 0 && g[1] == 0 && g[2] == 0 && g[3] == 0 && g[4] == 0 && g[5] == 0xffff {
        push_str(out, "::ffff:");
        push_ipv4(out, [(g[6] / 256) as u8, (g[6] % 256) as u8, (g[7] / 256) as u8, (g[7] % 256) as u8]);
        assert(out@ =~= old(out)@ + ipv6_text(g));
    } else {
        let (start, len) = longest_zero_run_exec(&g);
        if len > 1 {
            push_groups(out, &g, 0, start);
            push_str(out, "::");
            push_groups(out, &g, start + len, 8);
            assert(out@ =~= old(out)@ + ipv6_text(g));
        } else {
            push_groups(out, &g, 0, 8);
            assert(g@.subrange(0, 8) =~= g@);
        }
    }
}

/// Writes a socket address as std displays it.
pub fn write_socket_address(a: SocketAddress) -> (r: String)
    ensures
        r@ == socket_address_text(a),
{
    let mut out = String::new();
    match a.ip {
        IpAddress::V4(o) => {
            push_ipv4(&mut out, o);
            push_str(&mut out, ":");
        },
        IpAddress::V6(g) => {
            push_str(&mut out, "[");
            push_ipv6(&mut out, g);
            if a.scope_id != 0 {
                push_str(&mut out, "%");
                push_number(&mut out, a.scope_id, 10);
            }
            push_str(&mut out, "]:");
        },
    }
    push_number(&mut out, a.port as u32, 10);
    assert(out@ =~= socket_address_text(a));
    out
}

proof fn lemma_decimal_text(n: nat, s: Seq<char>, pos: int)
    requires
        0 <= pos,
        pos + number_text(n, 10).len() <= s.len(),
        s.subrange(pos, pos + number_text(n, 10).len()) == number_text(n, 10),
    ensures
        number_text(n, 10).len() >= 1,
        forall|j: int|
            pos <= j < pos + number_text(n, 10).len() ==> digit_value(#[trigger] s[j], 10) is Some,
        digits_value(s, pos, number_text(n, 10).len() as int, 10) == n,
        number_text(n, 10).len() > 1 ==> s[pos] != '0',
        n >= 1 ==> s[pos] != '0',
        n < 10 ==> number_text(n, 10).len() == 1,
        n < 100 ==> number_text(n, 10).len() <= 2,
        n < 1000 ==> number_text(n, 10).len() <= 3,
    decreases n,
{
    let t = number_text(n, 10);
    if n < 10 {
        assert(t == seq![digit_char(n as int)]);
        assert(s[pos] == t[0]);
        assert(digit_char(n as int) as int == '0' as int + n);
        assert(digits_value(s, pos, 0, 10) == 0);
    } else {
        let q = n / 10;
        let r = n % 10;
        vstd::arithmetic::div_mod::lemma_fundamental_div_mod(n as int, 10);
        let u = number_text(q, 10);
        assert(t == u.push(digit_char(r as int)));
        assert(s.subrange(pos, pos + u.len()) =~= t.subrange(0, u.len() as int));
        assert(t.subrange(0, u.len() as int) =~= u);
        lemma_decimal_text(q, s, pos);
        let k = pos + u.len();
        assert(s[k] == t[u.len() as int]);
        assert(digit_char(r as int) as int == '0' as int + r);
        assert forall|j: int| pos <= j < pos + t.len() implies digit_value(#[trigger] s[j], 10) is Some by {
            if j < k {
            } else {
                assert(j == k);
            }
        }
        assert(digits_value(s, pos, t.len() as int, 10) == digits_value(s, pos, u.len() as int, 10) * 10
            + digit_value(s[k], 10)->0);
        assert(q >= 1);
    }
}

proof fn lemma_read_written_octet(s: Seq<char>, pos: int, v: u8)
    requires
        0 <= pos,
        pos + number_text(v as nat, 10).len() < s.len(),
        s.subrange(pos, pos + number_text(v as nat, 10).len()) == number_text(v as nat, 10),
        digit_value(s[pos + number_text(v as nat, 10).len()], 10) is None,
    ensures
        read_octet(s, pos) == Some((v as int, pos + number_text(v as nat, 10).len())),
{
    let l = number_text(v as nat, 10).len() as int;
    lemma_decimal_text(v as nat, s, pos);
    lemma_digit_run_stops(s, pos, pos + l, 10);
}

/// The text of `a.b.c.d:port`, laid out: each number followed by its separator.
proof fn lemma_ipv4_text_layout(t0: Seq<char>, t1: Seq<char>, t2: Seq<char>, t3: Seq<char>, tp: Seq<char>)
    ensures
        ({
            let s = t0 + seq!['.'] + t1 + seq!['.'] + t2 + seq!['.'] + t3 + seq![':'] + tp;
            let d1 = t0.len() as int;
            let d2 = d1 + 1 + t1.len();
            let d3 = d2 + 1 + t2.len();
            let d4 = d3 + 1 + t3.len();
            &&& s.len() == d4 + 1 + tp.len()
            &&& s[d1] == '.' && s[d2] == '.' && s[d3] == '.' && s[d4] == ':'
            &&& s.subrange(0, d1) == t0
            &&& s.subrange(d1 + 1, d2) == t1
            &&& s.subrange(d2 + 1, d3) == t2
            &&& s.subrange(d3 + 1, d4) == t3
            &&& s.subrange(d4 + 1, s.len() as int) == tp
        }),
{
    let s = t0 + seq!['.'] + t1 + seq!['.'] + t2 + seq!['.'] + t3 + seq![':'] + tp;
    let d1 = t0.len() as int;
    let d2 = d1 + 1 + t1.len();
    let d3 = d2 + 1 + t2.len();
    let d4 = d3 + 1 + t3.len();
    assert(s.subrange(0, d1) =~= t0);
    assert(s.subrange(d1 + 1, d2) =~= t1);
    assert(s.subrange(d2 + 1, d3) =~= t2);
    assert(s.subrange(d3 + 1, d4) =~= t3);
    assert(s.subrange(d4 + 1, s.len() as int) =~= tp);
}

/// Writing an IPv4 socket address and reading the text back gives the same
/// address: the writer and the reader agree.
#[verifier::rlimit(40)]
pub proof fn lemma_ipv4_text_round_trip(o: [u8; 4], port: u16)
    ensures
        socket_address_spec(
            socket_address_text(SocketAddress { ip: IpAddress::V4(o), port, flowinfo: 0, scope_id: 0 }),
        ) == Some(SocketAddress { ip: IpAddress::V4(o), port, flowinfo: 0, scope_id: 0 }),
{
    reveal_strlit(".");
    reveal_strlit(":");
    let a = SocketAddress { ip: IpAddress::V4(o), port, flowinfo: 0, scope_id: 0 };
    let t0 = number_text(o[0] as nat, 10);
    let t1 = number_text(o[1] as nat, 10);
    let t2 = number_text(o[2] as nat, 10);
    let t3 = number_text(o[3] as nat, 10);
    let tp = number_text(port as nat, 10);
    let s = socket_address_text(a);
    assert(s =~= t0 + seq!['.'] + t1 + seq!['.'] + t2 + seq!['.'] + t3 + seq![':'] + tp);
    lemma_ipv4_text_layout(t0, t1, t2, t3, tp);
    let d1 = t0.len() as int;
    let d2 = d1 + 1 + t1.len();
    let d3 = d2 + 1 + t2.len();
    let d4 = d3 + 1 + t3.len();
    lemma_read_written_octet(s, 0, o[0]);
    lemma_read_written_octet(s, d1 + 1, o[1]);
    lemma_read_written_octet(s, d2 + 1, o[2]);
    lemma_read_written_octet(s, d3 + 1, o[3]);
    lemma_decimal_text(port as nat, s, d4 + 1);
    lemma_digit_run_stops(s, d4 + 1, s.len() as int, 10);
    assert(read_ipv4(s, 0) == Some((seq![o[0] as int, o[1] as int, o[2] as int, o[3] as int], d4)));
    assert(read_port(s, d4) == Some((port as int, s.len() as int)));
    let w = v4_array(seq![o[0] as int, o[1] as int, o[2] as int, o[3] as int]);
    assert(w == o) by {
        assert(w[0] == o[0] && w[1] == o[1] && w[2] == o[2] && w[3] == o[3]);
        assert(w@ =~= o@);
    }
}

} // verus!
