//! Socket addresses as plain values.

use crate::text::{chars_of, find, lemma_find_bound, position, split, split_at_char, views};
use vstd::prelude::*;

verus! {

/// An IP socket address: the address bits in network order as one integer,
/// and the port. An IPv6 address also carries its flow label and scope.
#[allow(inconsistent_fields)]
#[derive(Clone, Copy, Debug, PartialEq, Eq, Hash, Structural)]
pub enum SocketAddress {
    V4 { ip: u32, port: u16 },
    V6 { ip: u128, port: u16, flowinfo: u32, scope_id: u32 },
}

impl SocketAddress {
    /// The port of either family.
    pub open spec fn spec_port(self) -> u16 {
        match self {
            SocketAddress::V4 { port, .. } => port,
            SocketAddress::V6 { port, .. } => port,
        }
    }

    #[verifier::when_used_as_spec(spec_port)]
    pub fn port(self) -> (p: u16)
        ensures
            p == self.spec_port(),
    {
        match self {
            SocketAddress::V4 { port, .. } => port,
            SocketAddress::V6 { port, .. } => port,
        }
    }
}

/// Whether `c` is one of the ten decimal digits.
pub open spec fn is_digit(c: char) -> bool {
    0x30 <= c as u32 <= 0x39
}

/// What a decimal digit counts for; 0 for any other character.
pub open spec fn digit_value(c: char) -> nat {
    if is_digit(c) {
        (c as u32 - 0x30) as nat
    } else {
        0
    }
}

/// Whether `s` is made of decimal digits only.
pub open spec fn all_digits(s: Seq<char>) -> bool {
    forall|i: int| 0 <= i < s.len() ==> is_digit(#[trigger] s[i])
}

/// The number that the digits of `s` write in base ten.
pub open spec fn decimal(s: Seq<char>) -> nat
    decreases s.len(),
{
    if s.len() == 0 {
        0
    } else {
        decimal(s.drop_last()) * 10 + digit_value(s.last())
    }
}

/// A decimal numeral of one digit or more, zeros in front allowed, that
/// writes a number up to `max`.
pub open spec fn number(s: Seq<char>, max: nat) -> Option<nat> {
    if s.len() >= 1 && all_digits(s) && decimal(s) <= max {
        Some(decimal(s))
    } else {
        None
    }
}

/// What a front part of a numeral writes is no more than what the whole writes.
proof fn lemma_decimal_prefix(s: Seq<char>, n: int)
    requires
        0 <= n <= s.len(),
    ensures
        decimal(s.take(n)) <= decimal(s),
    decreases s.len(),
{
    if n < s.len() {
        lemma_decimal_prefix(s.drop_last(), n);
        assert(s.drop_last().take(n) == s.take(n));
    } else {
        assert(s.take(n) == s);
    }
}

/// Reads `number(s, max)`.
pub fn parse_number(s: &[char], max: u32) -> (r: Option<u32>)
    ensures
        match number(s@, max as nat) {
            Some(v) => r == Some(v as u32),
            None => r is None,
        },
{
    let n = s.len();
    if n == 0 {
        return None;
    }
    let mut acc: u64 = 0;
    let mut i: usize = 0;
    while i < n
        invariant
            n == s.len(),
            i <= n,
            all_digits(s@.take(i as int)),
            acc == decimal(s@.take(i as int)),
            acc <= max,
        decreases n - i,
    {
        let c: u32 = s[i] as u32;
        if c < 0x30 || c > 0x39 {
            return None;
        }
        let next: u64 = acc * 10 + (c - 0x30) as u64;
        proof {
            let t = s@.take(i + 1);
            assert(t.drop_last() == s@.take(i as int));
            lemma_decimal_prefix(s@, i + 1);
        }
        if next > max as u64 {
            return None;
        }
        acc = next;
        i += 1;
    }
    assert(s@.take(n as int) == s@);
    Some(acc as u32)
}

/// One part of a dotted IPv4 address: one to three digits without a zero in
/// front of another digit, up to 255.
pub open spec fn octet(s: Seq<char>) -> Option<u8> {
    if 1 <= s.len() <= 3 && (s.len() == 1 || s[0] != '0') {
        match number(s, 255) {
            Some(v) => Some(v as u8),
            None => None,
        }
    } else {
        None
    }
}

/// Reads `octet(s)`.
pub fn parse_octet(s: &[char]) -> (r: Option<u8>)
    ensures
        r == octet(s@),
{
    let n = s.len();
    if n < 1 || n > 3 {
        return None;
    }
    if n > 1 && s[0] == '0' {
        return None;
    }
    match parse_number(s, 255) {
        Some(v) => Some(v as u8),
        None => None,
    }
}

/// The address that four octets make, the first one in the highest place.
pub open spec fn ipv4_bits(a: u8, b: u8, c: u8, d: u8) -> u32 {
    (((a as nat * 256 + b as nat) * 256 + c as nat) * 256 + d as nat) as u32
}

/// A dotted IPv4 address: four octets with dots between them.
pub open spec fn ipv4(s: Seq<char>) -> Option<u32> {
    let f = split(s, '.');
    if f.len() == 4 && octet(f[0]) is Some && octet(f[1]) is Some && octet(f[2]) is Some && octet(
        f[3],
    ) is Some {
        Some(ipv4_bits(octet(f[0])->0, octet(f[1])->0, octet(f[2])->0, octet(f[3])->0))
    } else {
        None
    }
}

/// Reads `ipv4(s)`.
pub fn parse_ipv4(s: &[char]) -> (r: Option<u32>)
    ensures
        r == ipv4(s@),
{
    let f = split_at_char(s, '.');
    if f.len() != 4 {
        return None;
    }
    let a = match parse_octet(f[0]) {
        Some(v) => v,
        None => { return None; },
    };
    let b = match parse_octet(f[1]) {
        Some(v) => v,
        None => { return None; },
    };
    let c = match parse_octet(f[2]) {
        Some(v) => v,
        None => { return None; },
    };
    let d = match parse_octet(f[3]) {
        Some(v) => v,
        None => { return None; },
    };
    Some(((a as u32 * 256 + b as u32) * 256 + c as u32) * 256 + d as u32)
}

/// What a hexadecimal digit of either case counts for.
pub open spec fn hex_value(c: char) -> Option<nat> {
    let u = c as u32;
    if 0x30 <= u <= 0x39 {
        Some((u - 0x30) as nat)
    } else if 0x61 <= u <= 0x66 {
        Some((u - 0x61 + 10) as nat)
    } else if 0x41 <= u <= 0x46 {
        Some((u - 0x41 + 10) as nat)
    } else {
        None
    }
}

/// Whether `s` is made of hexadecimal digits only.
pub open spec fn all_hex(s: Seq<char>) -> bool {
    forall|i: int| 0 <= i < s.len() ==> hex_value(#[trigger] s[i]) is Some
}

/// The number that the digits of `s` write in base sixteen.
pub open spec fn hexadecimal(s: Seq<char>) -> nat
    decreases s.len(),
{
    if s.len() == 0 {
        0
    } else {
        hexadecimal(s.drop_last()) * 16 + match hex_value(s.last()) {
            Some(v) => v,
            None => 0,
        }
    }
}

/// One group of an IPv6 address: one to four hexadecimal digits.
pub open spec fn hex_group(s: Seq<char>) -> Option<u16> {
    if 1 <= s.len() <= 4 && all_hex(s) {
        Some(hexadecimal(s) as u16)
    } else {
        None
    }
}

/// Reads `hex_value(c)`.
pub fn parse_hex_digit(c: char) -> (r: Option<u16>)
    ensures
        match hex_value(c) {
            Some(v) => r == Some(v as u16),
            None => r is None,
        },
{
    let u: u32 = c as u32;
    if 0x30 <= u && u <= 0x39 {
        Some((u - 0x30) as u16)
    } else if 0x61 <= u && u <= 0x66 {
        Some((u - 0x61 + 10) as u16)
    } else if 0x41 <= u && u <= 0x46 {
        Some((u - 0x41 + 10) as u16)
    } else {
        None
    }
}

/// Reads `hex_group(s)`.
pub fn parse_hex_group(s: &[char]) -> (r: Option<u16>)
    ensures
        r == hex_group(s@),
{
    let n = s.len();
    if n < 1 || n > 4 {
        return None;
    }
    let mut acc: u32 = 0;
    let mut i: usize = 0;
    while i < n
        invariant
            n == s.len(),
            1 <= n <= 4,
            i <= n,
            all_hex(s@.take(i as int)),
            acc == hexadecimal(s@.take(i as int)),
            i == 0 ==> acc == 0,
            i == 1 ==> acc < 0x10,
            i == 2 ==> acc < 0x100,
            i == 3 ==> acc < 0x1000,
            i == 4 ==> acc < 0x10000,
        decreases n - i,
    {
        let d = match parse_hex_digit(s[i]) {
            Some(d) => d,
            None => { return None; },
        };
        proof {
            let t = s@.take(i + 1);
            assert(t.drop_last() == s@.take(i as int));
        }
        acc = acc * 16 + d as u32;
        i += 1;
    }
    assert(s@.take(n as int) == s@);
    Some(acc as u16)
}

/// The 16-bit groups that a list of fields writes: each field one
/// hexadecimal group, but that the last one, where `dotted_tail` allows it,
/// may be a dotted IPv4 address and then stands for two groups.
pub open spec fn field_groups(f: Seq<Seq<char>>, dotted_tail: bool) -> Option<Seq<u16>>
    decreases f.len(),
{
    if f.len() == 0 {
        Some(Seq::empty())
    } else {
        match field_groups(f.drop_last(), false) {
            None => None,
            Some(g) => match hex_group(f.last()) {
                Some(h) => Some(g.push(h)),
                None => if dotted_tail {
                    match ipv4(f.last()) {
                        Some(ip) => Some(g.push((ip / 0x10000) as u16).push((ip % 0x10000) as u16)),
                        None => None,
                    }
                } else {
                    None
                },
            },
        }
    }
}

/// The groups that `s` writes with colons between them; none for an empty `s`.
pub open spec fn groups(s: Seq<char>, dotted_tail: bool) -> Option<Seq<u16>> {
    if s.len() == 0 {
        Some(Seq::empty())
    } else {
        field_groups(split(s, ':'), dotted_tail)
    }
}

/// A list of fields writes no groups once a front part of it writes none.
proof fn lemma_field_groups_prefix(f: Seq<Seq<char>>, dotted_tail: bool, n: int)
    requires
        0 <= n <= f.len(),
        n < f.len() || !dotted_tail,
        field_groups(f.take(n), false) is None,
    ensures
        field_groups(f, dotted_tail) is None,
    decreases f.len(),
{
    if n == f.len() {
        assert(f.take(n) == f);
    } else {
        assert(f.drop_last().take(n) == f.take(n));
        lemma_field_groups_prefix(f.drop_last(), false, n);
    }
}

/// Reads `groups(s, dotted_tail)`.
pub fn parse_groups(s: &[char], dotted_tail: bool) -> (r: Option<Vec<u16>>)
    ensures
        match groups(s@, dotted_tail) {
            Some(g) => r is Some && r->0@ == g,
            None => r is None,
        },
{
    let mut out: Vec<u16> = Vec::new();
    if s.len() == 0 {
        return Some(out);
    }
    let f = split_at_char(s, ':');
    let ghost fields = views(f@);
    let n = f.len();
    let mut i: usize = 0;
    while i < n
        invariant
            n == f.len(),
            i <= n,
            fields == views(f@),
            fields == split(s@, ':'),
            s@.len() != 0,
            field_groups(fields.take(i as int), false) == Some(out@),
        decreases n - i,
    {
        let ghost front = fields.take(i + 1);
        assert(front.drop_last() == fields.take(i as int));
        match parse_hex_group(f[i]) {
            Some(h) => {
                out.push(h);
            },
            None => {
                if dotted_tail && i + 1 == n {
                    match parse_ipv4(f[i]) {
                        Some(ip) => {
                            out.push((ip / 0x10000) as u16);
                            out.push((ip % 0x10000) as u16);
                            return Some(out);
                        },
                        None => {
                            return None;
                        },
                    }
                } else {
                    proof {
                        if i + 1 < n {
                            lemma_field_groups_prefix(fields, dotted_tail, i + 1);
                        }
                    }
                    return None;
                }
            },
        }
        i += 1;
    }
    proof {
        assert(fields.take(n as int) == fields);
    }
    Some(out)
}

/// The place of the first two colons in a row in `s`, or the length of `s`
/// where it holds none.
pub open spec fn find_gap(s: Seq<char>) -> nat
    decreases s.len(),
{
    if s.len() < 2 {
        s.len()
    } else if s[0] == ':' && s[1] == ':' {
        0
    } else {
        1 + find_gap(s.drop_first())
    }
}

/// A place that no two colons in a row stand before is where `find_gap`
/// stops, if two colons in a row or the end are there.
proof fn lemma_find_gap_is(s: Seq<char>, n: int)
    requires
        0 <= n <= s.len(),
        forall|i: int|
            0 <= i < n && i + 1 < s.len() ==> !(#[trigger] s[i] == ':' && s[i + 1] == ':'),
        n < s.len() ==> n + 1 < s.len() && s[n] == ':' && s[n + 1] == ':',
    ensures
        find_gap(s) == n,
    decreases n,
{
    if n > 0 && s.len() >= 2 {
        let t = s.drop_first();
        lemma_find_gap_is(t, n - 1);
    }
}

/// Reads `find_gap(s)`.
pub fn gap_position(s: &[char]) -> (k: usize)
    ensures
        k == find_gap(s@),
        k == s@.len() || k + 2 <= s@.len(),
{
    let n = s.len();
    let mut i: usize = 0;
    while n - i >= 2 && !(s[i] == ':' && s[i + 1] == ':')
        invariant
            n == s.len(),
            i <= n,
            forall|j: int|
                0 <= j < i && j + 1 < n ==> !(#[trigger] s@[j] == ':' && s@[j + 1] == ':'),
        decreases n - i,
    {
        i += 1;
    }
    if n - i >= 2 {
        proof {
            lemma_find_gap_is(s@, i as int);
        }
        i
    } else {
        proof {
            lemma_find_gap_is(s@, n as int);
        }
        n
    }
}

/// The address that eight groups make, the first one in the highest place.
pub open spec fn ipv6_bits(g: Seq<u16>) -> u128 {
    (((((((g[0] as nat * 0x10000 + g[1] as nat) * 0x10000 + g[2] as nat) * 0x10000
        + g[3] as nat) * 0x10000 + g[4] as nat) * 0x10000 + g[5] as nat) * 0x10000
        + g[6] as nat) * 0x10000 + g[7] as nat) as u128
}

/// `n` groups of zero.
pub open spec fn zero_groups(n: nat) -> Seq<u16> {
    Seq::new(n, |i: int| 0u16)
}

/// An IPv6 address in text: eight groups with colons between them, or fewer
/// with one pair of colons that stands for the groups of zero left out, one
/// at least. The last two groups may be written as a dotted IPv4 address.
pub open spec fn ipv6(s: Seq<char>) -> Option<u128> {
    let k = find_gap(s) as int;
    if k >= s.len() {
        match groups(s, true) {
            Some(g) => if g.len() == 8 {
                Some(ipv6_bits(g))
            } else {
                None
            },
            None => None,
        }
    } else {
        match (groups(s.take(k), false), groups(s.skip(k + 2), true)) {
            (Some(head), Some(tail)) => if head.len() + tail.len() <= 7 {
                Some(ipv6_bits(head + zero_groups((8 - head.len() - tail.len()) as nat) + tail))
            } else {
                None
            },
            _ => None,
        }
    }
}

fn pack_groups(g: &Vec<u16>) -> (r: u128)
    requires
        g@.len() == 8,
    ensures
        r == ipv6_bits(g@),
{
    let mut acc: u128 = g[0] as u128;
    acc = acc * 0x10000 + g[1] as u128;
    acc = acc * 0x10000 + g[2] as u128;
    acc = acc * 0x10000 + g[3] as u128;
    acc = acc * 0x10000 + g[4] as u128;
    acc = acc * 0x10000 + g[5] as u128;
    acc = acc * 0x10000 + g[6] as u128;
    acc = acc * 0x10000 + g[7] as u128;
    acc
}

/// Reads `ipv6(s)`.
pub fn parse_ipv6(s: &[char]) -> (r: Option<u128>)
    ensures
        r == ipv6(s@),
{
    let n = s.len();
    let k = gap_position(s);
    if k >= n {
        return match parse_groups(s, true) {
            Some(g) => if g.len() == 8 {
                Some(pack_groups(&g))
            } else {
                None
            },
            None => None,
        };
    }
    let front = vstd::slice::slice_subrange(s, 0, k);
    let back = vstd::slice::slice_subrange(s, k + 2, n);
    let head = match parse_groups(front, false) {
        Some(g) => g,
        None => { return None; },
    };
    let tail = match parse_groups(back, true) {
        Some(g) => g,
        None => { return None; },
    };
    if head.len() > 7 || tail.len() > 7 - head.len() {
        return None;
    }
    let mut all: Vec<u16> = Vec::new();
    let mut i: usize = 0;
    while i < head.len()
        invariant
            i <= head.len(),
            all@ == head@.take(i as int),
        decreases head.len() - i,
    {
        all.push(head[i]);
        i += 1;
    }
    let fill: usize = 8 - head.len() - tail.len();
    let mut j: usize = 0;
    while j < fill
        invariant
            j <= fill,
            all@ == head@ + zero_groups(j as nat),
        decreases fill - j,
    {
        all.push(0);
        j += 1;
    }
    let mut t: usize = 0;
    while t < tail.len()
        invariant
            t <= tail.len(),
            all@ == head@ + zero_groups(fill as nat) + tail@.take(t as int),
        decreases tail.len() - t,
    {
        all.push(tail[t]);
        t += 1;
    }
    Some(pack_groups(&all))
}

/// An IPv4 socket address in text: a dotted address, a colon and the port.
pub open spec fn socket_v4(s: Seq<char>) -> Option<SocketAddress> {
    let k = find(s, ':') as int;
    if k < s.len() {
        match (ipv4(s.take(k)), number(s.skip(k + 1), 0xffff)) {
            (Some(ip), Some(port)) => Some(SocketAddress::V4 { ip, port: port as u16 }),
            _ => None,
        }
    } else {
        None
    }
}

/// What stands between the brackets of an IPv6 socket address: the address,
/// and after a percent sign, where there is one, the scope as a decimal
/// numeral. Without the sign the scope is 0.
pub open spec fn scoped_ipv6(s: Seq<char>) -> Option<(u128, u32)> {
    let p = find(s, '%') as int;
    if p < s.len() {
        match (ipv6(s.take(p)), number(s.skip(p + 1), 0xffff_ffff)) {
            (Some(ip), Some(scope)) => Some((ip, scope as u32)),
            _ => None,
        }
    } else {
        match ipv6(s) {
            Some(ip) => Some((ip, 0u32)),
            None => None,
        }
    }
}

/// An IPv6 socket address in text: the address, with its scope if any, in
/// square brackets, a colon and the port. The flow label is 0.
pub open spec fn socket_v6(s: Seq<char>) -> Option<SocketAddress> {
    let j = find(s, ']') as int;
    if s.len() > 0 && s[0] == '[' && j + 1 < s.len() && s[j + 1] == ':' {
        match (scoped_ipv6(s.subrange(1, j)), number(s.skip(j + 2), 0xffff)) {
            (Some((ip, scope_id)), Some(port)) => Some(
                SocketAddress::V6 { ip, port: port as u16, flowinfo: 0, scope_id },
            ),
            _ => None,
        }
    } else {
        None
    }
}

/// The socket address that `s` writes, if it writes one.
#[verifier::opaque]
pub open spec fn socket_addr(s: Seq<char>) -> Option<SocketAddress> {
    match socket_v4(s) {
        Some(a) => Some(a),
        None => socket_v6(s),
    }
}

fn parse_socket_v4(s: &[char]) -> (r: Option<SocketAddress>)
    ensures
        r == socket_v4(s@),
{
    let n = s.len();
    let k = position(s, ':');
    if k >= n {
        return None;
    }
    let host = vstd::slice::slice_subrange(s, 0, k);
    let tail = vstd::slice::slice_subrange(s, k + 1, n);
    let ip = match parse_ipv4(host) {
        Some(ip) => ip,
        None => { return None; },
    };
    match parse_number(tail, 0xffff) {
        Some(port) => Some(SocketAddress::V4 { ip, port: port as u16 }),
        None => None,
    }
}

fn parse_scoped_ipv6(s: &[char]) -> (r: Option<(u128, u32)>)
    ensures
        r == scoped_ipv6(s@),
{
    let n = s.len();
    let p = position(s, '%');
    if p >= n {
        return match parse_ipv6(s) {
            Some(ip) => Some((ip, 0)),
            None => None,
        };
    }
    let host = vstd::slice::slice_subrange(s, 0, p);
    let tail = vstd::slice::slice_subrange(s, p + 1, n);
    let ip = match parse_ipv6(host) {
        Some(ip) => ip,
        None => { return None; },
    };
    match parse_number(tail, 0xffff_ffff) {
        Some(scope) => Some((ip, scope)),
        None => None,
    }
}

fn parse_socket_v6(s: &[char]) -> (r: Option<SocketAddress>)
    ensures
        r == socket_v6(s@),
{
    let n = s.len();
    if n == 0 || s[0] != '[' {
        return None;
    }
    let j = position(s, ']');
    if j >= n || n - j < 2 || s[j + 1] != ':' {
        return None;
    }
    proof {
        lemma_find_bound(s@, ']');
    }
    let inner = vstd::slice::slice_subrange(s, 1, j);
    let tail = vstd::slice::slice_subrange(s, j + 2, n);
    let (ip, scope_id) = match parse_scoped_ipv6(inner) {
        Some(pair) => pair,
        None => { return None; },
    };
    match parse_number(tail, 0xffff) {
        Some(port) => Some(SocketAddress::V6 { ip, port: port as u16, flowinfo: 0, scope_id }),
        None => None,
    }
}

impl SocketAddress {
    /// Reads a socket address from its text.
    pub fn parse(s: &[char]) -> (r: Option<SocketAddress>)
        ensures
            r == socket_addr(s@),
    {
        reveal(socket_addr);
        match parse_socket_v4(s) {
            Some(a) => Some(a),
            None => parse_socket_v6(s),
        }
    }

    /// Reads a socket address from a string.
    pub fn parse_str(s: &str) -> (r: Option<SocketAddress>)
        ensures
            r == socket_addr(s@),
    {
        let chars = chars_of(s);
        SocketAddress::parse(chars.as_slice())
    }
}

/// Whether `c` is one of the characters that addresses are written with.
pub open spec fn is_address_char(c: char) -> bool {
    hex_value(c) is Some || c == '.' || c == ':' || c == '[' || c == ']' || c == '%'
}

/// Whether `s` is made of such characters only.
pub open spec fn address_text(s: Seq<char>) -> bool {
    forall|i: int| 0 <= i < s.len() ==> is_address_char(#[trigger] s[i])
}

/// A text is made of such characters if its separator is one and its fields
/// are made of them.
proof fn lemma_split_text(s: Seq<char>, c: char)
    requires
        is_address_char(c),
        forall|k: int|
            0 <= k < split(s, c).len() ==> address_text(
                #[trigger] split(s, c)[k],
            ),
    ensures
        address_text(s),
    decreases s.len(),
{
    let k = find(s, c) as int;
    lemma_find_bound(s, c);
    let f = split(s, c);
    if k >= s.len() {
        assert(f[0] == s);
    } else {
        let rest = s.skip(k + 1);
        let g = split(rest, c);
        assert forall|j: int| 0 <= j < g.len() implies address_text(#[trigger] g[j]) by {
            assert(g[j] == f[j + 1]);
        }
        lemma_split_text(rest, c);
        assert(f[0] == s.take(k));
        assert forall|i: int| 0 <= i < s.len() implies is_address_char(#[trigger] s[i]) by {
            if i < k {
                assert(s[i] == s.take(k)[i]);
            } else if i > k {
                assert(s[i] == rest[i - k - 1]);
            }
        }
    }
}

/// A numeral is not empty and is made of digits.
proof fn lemma_number_text(s: Seq<char>, max: nat)
    requires
        number(s, max) is Some,
    ensures
        s.len() > 0,
        address_text(s),
{
}

/// A dotted IPv4 address is made of digits and dots.
proof fn lemma_ipv4_text(s: Seq<char>)
    requires
        ipv4(s) is Some,
    ensures
        address_text(s),
{
    let f = split(s, '.');
    assert forall|k: int| 0 <= k < f.len() implies address_text(#[trigger] f[k]) by {
        lemma_number_text(f[k], 255);
    }
    lemma_split_text(s, '.');
}

/// Fields that write groups are made of hexadecimal digits and dots.
proof fn lemma_field_groups_text(f: Seq<Seq<char>>, dotted_tail: bool)
    requires
        field_groups(f, dotted_tail) is Some,
    ensures
        forall|k: int| 0 <= k < f.len() ==> address_text(#[trigger] f[k]),
    decreases f.len(),
{
    if f.len() > 0 {
        lemma_field_groups_text(f.drop_last(), false);
        if hex_group(f.last()) is None {
            lemma_ipv4_text(f.last());
        }
        assert forall|k: int| 0 <= k < f.len() implies address_text(#[trigger] f[k]) by {
            if k < f.len() - 1 {
                assert(f[k] == f.drop_last()[k]);
            }
        }
    }
}

/// A text that writes groups is made of hexadecimal digits, dots and colons.
proof fn lemma_groups_text(s: Seq<char>, dotted_tail: bool)
    requires
        groups(s, dotted_tail) is Some,
    ensures
        address_text(s),
{
    if s.len() > 0 {
        lemma_field_groups_text(split(s, ':'), dotted_tail);
        lemma_split_text(s, ':');
    }
}

/// `find_gap` lies within `s`, and stops at two colons in a row unless it
/// reaches the end.
proof fn lemma_find_gap_bound(s: Seq<char>)
    ensures
        find_gap(s) <= s.len(),
        find_gap(s) < s.len() ==> find_gap(s) + 2 <= s.len() && s[find_gap(s) as int] == ':'
            && s[find_gap(s) as int + 1] == ':',
    decreases s.len(),
{
    if s.len() >= 2 && !(s[0] == ':' && s[1] == ':') {
        let t = s.drop_first();
        lemma_find_gap_bound(t);
    }
}

/// An IPv6 address is not empty and is made of hexadecimal digits, dots and
/// colons.
proof fn lemma_ipv6_text(s: Seq<char>)
    requires
        ipv6(s) is Some,
    ensures
        s.len() > 0,
        address_text(s),
{
    let k = find_gap(s) as int;
    lemma_find_gap_bound(s);
    if k >= s.len() {
        lemma_groups_text(s, true);
    } else {
        lemma_groups_text(s.take(k), false);
        lemma_groups_text(s.skip(k + 2), true);
        assert forall|i: int| 0 <= i < s.len() implies is_address_char(#[trigger] s[i]) by {
            if i < k {
                assert(s[i] == s.take(k)[i]);
            } else if i >= k + 2 {
                assert(s[i] == s.skip(k + 2)[i - k - 2]);
            }
        }
    }
}

/// The same with a scope behind a percent sign.
proof fn lemma_scoped_ipv6_text(s: Seq<char>)
    requires
        scoped_ipv6(s) is Some,
    ensures
        address_text(s),
{
    let p = find(s, '%') as int;
    lemma_find_bound(s, '%');
    if p < s.len() {
        lemma_ipv6_text(s.take(p));
        lemma_number_text(s.skip(p + 1), 0xffff_ffff);
        assert forall|i: int| 0 <= i < s.len() implies is_address_char(#[trigger] s[i]) by {
            if i < p {
                assert(s[i] == s.take(p)[i]);
            } else if i > p {
                assert(s[i] == s.skip(p + 1)[i - p - 1]);
            }
        }
    } else {
        lemma_ipv6_text(s);
    }
}

/// The text of a socket address is not empty and is made of hexadecimal
/// digits, dots, colons, square brackets and percent signs only.
pub proof fn lemma_socket_addr_text(s: Seq<char>)
    requires
        socket_addr(s) is Some,
    ensures
        s.len() > 0,
        address_text(s),
{
    reveal(socket_addr);
    if socket_v4(s) is Some {
        let k = find(s, ':') as int;
        lemma_find_bound(s, ':');
        lemma_ipv4_text(s.take(k));
        lemma_number_text(s.skip(k + 1), 0xffff);
        assert forall|i: int| 0 <= i < s.len() implies is_address_char(#[trigger] s[i]) by {
            if i < k {
                assert(s[i] == s.take(k)[i]);
            } else if i > k {
                assert(s[i] == s.skip(k + 1)[i - k - 1]);
            }
        }
    } else {
        let j = find(s, ']') as int;
        lemma_find_bound(s, ']');
        lemma_scoped_ipv6_text(s.subrange(1, j));
        lemma_number_text(s.skip(j + 2), 0xffff);
        assert forall|i: int| 0 <= i < s.len() implies is_address_char(#[trigger] s[i]) by {
            if 1 <= i < j {
                assert(s[i] == s.subrange(1, j)[i - 1]);
            } else if i > j + 1 {
                assert(s[i] == s.skip(j + 2)[i - j - 2]);
            }
        }
    }
}

} // verus!
