//! Network addresses as plain values, and the text in which they are
//! written: dotted decimal for IPv4, compressed hexadecimal groups for IPv6.

use crate::numeral::{decimal_digits, push_decimal};
use crate::text::{join, string_of};
use vstd::prelude::*;

verus! {

/// An IP address, by its bits.
#[derive(Clone, Copy, Debug, PartialEq, Eq, Hash, Structural)]
pub enum IpAddress {
    /// The four octets of an IPv4 address, the first in the highest byte.
    V4(u32),
    /// The eight groups of an IPv6 address, the first in the highest bits.
    V6(u128),
}

/// An IP address together with a port.
#[derive(Clone, Copy, Debug, PartialEq, Eq, Hash, Structural)]
pub enum SocketAddress {
    V4 { octets: u32, port: u16 },
    V6 { groups: u128, port: u16, flowinfo: u32, scope_id: u32 },
}

/// Octet `i` of an IPv4 address, counted from the left.
pub open spec fn octet(ip: u32, i: int) -> nat {
    if i == 0 {
        (ip / 0x100_0000) as nat
    } else if i == 1 {
        ((ip / 0x1_0000) % 0x100) as nat
    } else if i == 2 {
        ((ip / 0x100) % 0x100) as nat
    } else {
        (ip % 0x100) as nat
    }
}

/// An IPv4 address in dotted decimal.
pub open spec fn ipv4_text(ip: u32) -> Seq<char> {
    decimal_digits(octet(ip, 0)).push('.') + decimal_digits(octet(ip, 1)).push('.')
        + decimal_digits(octet(ip, 2)).push('.') + decimal_digits(octet(ip, 3))
}

/// The weight of group `i` of an IPv6 address, counted from the left.
pub open spec fn group_unit(i: int) -> int {
    if i == 0 {
        0x1_0000_0000_0000_0000_0000_0000_0000
    } else if i == 1 {
        0x1_0000_0000_0000_0000_0000_0000
    } else if i == 2 {
        0x1_0000_0000_0000_0000_0000
    } else if i == 3 {
        0x1_0000_0000_0000_0000
    } else if i == 4 {
        0x1_0000_0000_0000
    } else if i == 5 {
        0x1_0000_0000
    } else if i == 6 {
        0x1_0000
    } else {
        1
    }
}

/// The eight 16-bit groups of an IPv6 address.
pub open spec fn groups_of(ip: u128) -> Seq<u16> {
    Seq::new(8, |i: int| ((ip as int / group_unit(i)) % 0x1_0000) as u16)
}

/// The lowercase hexadecimal digit for `d`, where `d < 16`.
pub open spec fn hex_char(d: nat) -> char {
    if d < 10 {
        (d + 48) as char
    } else {
        (d + 87) as char
    }
}

/// `n` in lowercase hexadecimal, without leading zeros.
pub open spec fn hex_digits(n: nat) -> Seq<char>
    decreases n,
{
    if n < 16 {
        seq![hex_char(n)]
    } else {
        hex_digits(n / 16).push(hex_char(n % 16))
    }
}

/// Groups in hexadecimal, with colons between them.
pub open spec fn groups_text(groups: Seq<u16>) -> Seq<char> {
    join(groups.map_values(|g: u16| hex_digits(g as nat)), ':')
}

/// Whether the `len` groups from `start` on are all zero.
pub open spec fn all_zero(groups: Seq<u16>, start: int, len: int) -> bool {
    forall|i: int| start <= i < start + len ==> #[trigger] groups[i] == 0
}

/// Whether the groups from `start` on are a longest run of zero groups, and
/// of the longest runs the first.
pub open spec fn is_first_longest_zero_run(groups: Seq<u16>, start: int, len: int) -> bool {
    &&& 0 <= start
    &&& 0 < len
    &&& start + len <= groups.len()
    &&& all_zero(groups, start, len)
    &&& forall|s: int, l: int|
        0 <= s && 0 < l && s + l <= groups.len() && #[trigger] all_zero(groups, s, l) ==> l < len
            || (l == len && start <= s)
}

/// The run of zero groups that is written as `::`: the first of the longest
/// runs, where that has at least two groups.
pub open spec fn elided_run(groups: Seq<u16>) -> Option<(int, int)> {
    if exists|start: int, len: int| len >= 2 && is_first_longest_zero_run(groups, start, len) {
        Some(
            choose|run: (int, int)| run.1 >= 2 && is_first_longest_zero_run(groups, run.0, run.1),
        )
    } else {
        None
    }
}

/// An IPv6 address in text. An address that maps an IPv4 address is written
/// as `::ffff:` and that address; any other in hexadecimal groups, with the
/// first longest run of two or more zero groups written as `::`.
pub open spec fn ipv6_text(ip: u128) -> Seq<char> {
    let groups = groups_of(ip);
    if ip / 0x1_0000_0000 == 0xffff {
        "::ffff:"@ + ipv4_text((ip % 0x1_0000_0000) as u32)
    } else {
        match elided_run(groups) {
            Some((start, len)) => groups_text(groups.take(start)) + "::"@ + groups_text(
                groups.skip(start + len),
            ),
            None => groups_text(groups),
        }
    }
}

/// A socket address in text: `ip:port`, with an IPv6 address in brackets
/// and, where its scope is not zero, `%` and the scope behind it.
pub open spec fn socket_text(addr: SocketAddress) -> Seq<char> {
    match addr {
        SocketAddress::V4 { octets, port } => ipv4_text(octets).push(':') + decimal_digits(port as nat),
        SocketAddress::V6 { groups, port, flowinfo, scope_id } => {
            let scope = if scope_id == 0 {
                Seq::<char>::empty()
            } else {
                seq!['%'] + decimal_digits(scope_id as nat)
            };
            seq!['['] + ipv6_text(groups) + scope + "]:"@ + decimal_digits(port as nat)
        },
    }
}

/// Appends `n` in lowercase hexadecimal to `out`.
fn push_hex(out: &mut Vec<char>, n: u16)
    ensures
        final(out)@ == old(out)@ + hex_digits(n as nat),
    decreases n,
{
    if n >= 16 {
        push_hex(out, n / 16);
    }
    let d: u8 = (n % 16) as u8;
    let c: char = if d < 10 {
        (d + 48) as char
    } else {
        (d + 87) as char
    };
    out.push(c);
    proof {
        if n >= 16 {
            assert(out@ == old(out)@ + hex_digits((n / 16) as nat).push(c));
        } else {
            assert(out@ == old(out)@ + seq![c]);
        }
    }
}

/// Appends the groups from `lo` up to `hi`, with colons between them.
fn push_groups(out: &mut Vec<char>, groups: &Vec<u16>, lo: usize, hi: usize)
    requires
        lo <= hi <= groups.len(),
    ensures
        final(out)@ == old(out)@ + groups_text(groups@.subrange(lo as int, hi as int)),
{
    let ghost hex = |g: u16| hex_digits(g as nat);
    let mut i: usize = lo;
    assert(groups@.subrange(lo as int, lo as int).map_values(hex) == Seq::<Seq<char>>::empty());
    while i < hi
        invariant
            lo <= i <= hi <= groups.len(),
            hex == (|g: u16| hex_digits(g as nat)),
            out@ == old(out)@ + join(groups@.subrange(lo as int, i as int).map_values(hex), ':'),
        decreases hi - i,
    {
        proof {
            let next = groups@.subrange(lo as int, i + 1).map_values(hex);
            let seen = groups@.subrange(lo as int, i as int).map_values(hex);
            assert(next.drop_last() == seen);
            assert(next.last() == hex_digits(groups@[i as int] as nat));
            if i == lo {
                assert(next[0] == hex_digits(groups@[i as int] as nat));
            }
        }
        if i > lo {
            out.push(':');
        }
        push_hex(out, groups[i]);
        i += 1;
    }
}

/// Appends an IPv4 address in dotted decimal.
fn push_ipv4(out: &mut Vec<char>, ip: u32)
    ensures
        final(out)@ == old(out)@ + ipv4_text(ip),
{
    push_decimal(out, (ip / 0x100_0000) as u64);
    out.push('.');
    push_decimal(out, ((ip / 0x1_0000) % 0x100) as u64);
    out.push('.');
    push_decimal(out, ((ip / 0x100) % 0x100) as u64);
    out.push('.');
    push_decimal(out, (ip % 0x100) as u64);
}

/// The eight groups of an IPv6 address.
fn split_groups(ip: u128) -> (groups: Vec<u16>)
    ensures
        groups@ == groups_of(ip),
{
    let mut groups: Vec<u16> = Vec::new();
    groups.push(((ip / 0x1_0000_0000_0000_0000_0000_0000_0000) % 0x1_0000) as u16);
    groups.push(((ip / 0x1_0000_0000_0000_0000_0000_0000) % 0x1_0000) as u16);
    groups.push(((ip / 0x1_0000_0000_0000_0000_0000) % 0x1_0000) as u16);
    groups.push(((ip / 0x1_0000_0000_0000_0000) % 0x1_0000) as u16);
    groups.push(((ip / 0x1_0000_0000_0000) % 0x1_0000) as u16);
    groups.push(((ip / 0x1_0000_0000) % 0x1_0000) as u16);
    groups.push(((ip / 0x1_0000) % 0x1_0000) as u16);
    groups.push((ip % 0x1_0000) as u16);
    assert(groups@ == groups_of(ip));
    groups
}

/// The first longest run of zero groups, as start and length; the length is
/// zero where no group is zero.
fn longest_zero_run(groups: &Vec<u16>) -> (run: (usize, usize))
    ensures
        run.1 > 0 ==> is_first_longest_zero_run(groups@, run.0 as int, run.1 as int),
        run.1 == 0 ==> forall|i: int| 0 <= i < groups.len() ==> groups@[i] != 0,
{
    let mut best_start: usize = 0;
    let mut best_len: usize = 0;
    let mut cur_len: usize = 0;
    let mut i: usize = 0;
    while i < groups.len()
        invariant
            i <= groups.len(),
            cur_len <= i,
            all_zero(groups@, i - cur_len, cur_len as int),
            cur_len < i ==> groups@[i - cur_len - 1] != 0,
            best_start + best_len <= i,
            cur_len <= best_len,
            all_zero(groups@, best_start as int, best_len as int),
            forall|s: int, l: int|
                0 <= s && 0 < l && s + l <= i && #[trigger] all_zero(groups@, s, l) ==> l
                    < best_len || (l == best_len && best_start <= s),
        decreases groups.len() - i,
    {
        let ghost old_best_start = best_start;
        let ghost old_best_len = best_len;
        let ghost old_cur = cur_len;
        if groups[i] == 0 {
            cur_len += 1;
            if cur_len > best_len {
                best_start = i + 1 - cur_len;
                best_len = cur_len;
            }
        } else {
            cur_len = 0;
        }
        proof {
            assert forall|s: int, l: int|
                0 <= s && 0 < l && s + l <= i + 1 && #[trigger] all_zero(groups@, s, l) implies l
                < best_len || (l == best_len && best_start <= s) by {
                if s + l == i + 1 {
                    assert(groups@[i as int] == 0);
                    if s < i - old_cur {
                        assert(groups@[i - old_cur - 1] == 0);
                    }
                } else {
                    assert(l < old_best_len || (l == old_best_len && old_best_start <= s));
                }
            }
        }
        i += 1;
    }
    proof {
        if best_len == 0 {
            assert forall|k: int| 0 <= k < groups.len() implies groups@[k] != 0 by {
                if groups@[k] == 0 {
                    assert(all_zero(groups@, k, 1));
                }
            }
        }
    }
    (best_start, best_len)
}

/// Two first longest zero runs of the same groups are the same run.
proof fn lemma_first_longest_is_one(groups: Seq<u16>, a: (int, int), b: (int, int))
    requires
        is_first_longest_zero_run(groups, a.0, a.1),
        is_first_longest_zero_run(groups, b.0, b.1),
    ensures
        a == b,
{
}

/// Appends an IPv6 address in text.
fn push_ipv6(out: &mut Vec<char>, ip: u128)
    ensures
        final(out)@ == old(out)@ + ipv6_text(ip),
{
    if ip / 0x1_0000_0000 == 0xffff {
        out.push(':');
        out.push(':');
        out.push('f');
        out.push('f');
        out.push('f');
        out.push('f');
        out.push(':');
        proof {
            reveal_strlit("::ffff:");
            assert(out@ == old(out)@ + "::ffff:"@);
        }
        push_ipv4(out, (ip % 0x1_0000_0000) as u32);
    } else {
        let groups = split_groups(ip);
        let run = longest_zero_run(&groups);
        if run.1 >= 2 {
            proof {
                let found = (run.0 as int, run.1 as int);
                let chosen = elided_run(groups@).unwrap();
                lemma_first_longest_is_one(groups@, found, chosen);
                assert(groups@.subrange(0, run.0 as int) == groups@.take(run.0 as int));
                assert(groups@.subrange(run.0 + run.1, groups.len() as int) == groups@.skip(
                    run.0 + run.1,
                ));
            }
            push_groups(out, &groups, 0, run.0);
            out.push(':');
            out.push(':');
            proof {
                reveal_strlit("::");
                assert(out@ == old(out)@ + groups_text(groups@.take(run.0 as int)) + "::"@);
            }
            push_groups(out, &groups, run.0 + run.1, groups.len());
        } else {
            proof {
                if exists|start: int, len: int|
                    len >= 2 && is_first_longest_zero_run(groups@, start, len) {
                    let (start, len) = choose|start: int, len: int|
                        len >= 2 && is_first_longest_zero_run(groups@, start, len);
                    if run.1 > 0 {
                        lemma_first_longest_is_one(
                            groups@,
                            (start, len),
                            (run.0 as int, run.1 as int),
                        );
                    } else {
                        assert(groups@[start] == 0);
                    }
                }
                assert(elided_run(groups@).is_none());
                assert(groups@.subrange(0, groups.len() as int) == groups@);
            }
            push_groups(out, &groups, 0, groups.len());
        }
    }
}

impl SocketAddress {
    /// The address of `ip` and `port`. An IPv6 address gets no flow
    /// information and no scope.
    pub open spec fn spec_new(ip: IpAddress, port: u16) -> SocketAddress {
        match ip {
            IpAddress::V4(bits) => SocketAddress::V4 { octets: bits, port },
            IpAddress::V6(bits) => SocketAddress::V6 {
                groups: bits,
                port,
                flowinfo: 0,
                scope_id: 0,
            },
        }
    }

    /// The address of `ip` and `port`. An IPv6 address gets no flow
    /// information and no scope.
    #[verifier::when_used_as_spec(spec_new)]
    pub fn new(ip: IpAddress, port: u16) -> (r: SocketAddress)
        ensures
            r == SocketAddress::spec_new(ip, port),
    {
        match ip {
            IpAddress::V4(bits) => SocketAddress::V4 { octets: bits, port },
            IpAddress::V6(bits) => SocketAddress::V6 {
                groups: bits,
                port,
                flowinfo: 0,
                scope_id: 0,
            },
        }
    }

    pub open spec fn spec_ip(&self) -> IpAddress {
        match *self {
            SocketAddress::V4 { octets, port } => IpAddress::V4(octets),
            SocketAddress::V6 { groups, port, flowinfo, scope_id } => IpAddress::V6(groups),
        }
    }

    pub open spec fn spec_port(&self) -> u16 {
        match *self {
            SocketAddress::V4 { octets, port } => port,
            SocketAddress::V6 { groups, port, flowinfo, scope_id } => port,
        }
    }

    #[verifier::when_used_as_spec(spec_ip)]
    pub fn ip(&self) -> (r: IpAddress)
        ensures
            r == self.spec_ip(),
    {
        match self {
            SocketAddress::V4 { octets, port } => IpAddress::V4(*octets),
            SocketAddress::V6 { groups, port, flowinfo, scope_id } => IpAddress::V6(*groups),
        }
    }

    #[verifier::when_used_as_spec(spec_port)]
    pub fn port(&self) -> (r: u16)
        ensures
            r == self.spec_port(),
    {
        match self {
            SocketAddress::V4 { octets, port } => *port,
            SocketAddress::V6 { groups, port, flowinfo, scope_id } => *port,
        }
    }

    pub fn is_ipv4(&self) -> (r: bool)
        ensures
            r == (self is V4),
    {
        match self {
            SocketAddress::V4 { octets, port } => true,
            SocketAddress::V6 { groups, port, flowinfo, scope_id } => false,
        }
    }

    pub fn is_ipv6(&self) -> (r: bool)
        ensures
            r == (self is V6),
    {
        match self {
            SocketAddress::V4 { octets, port } => false,
            SocketAddress::V6 { groups, port, flowinfo, scope_id } => true,
        }
    }

    /// Appends the text of this address to `out`.
    pub fn push_text(&self, out: &mut Vec<char>)
        ensures
            final(out)@ == old(out)@ + socket_text(*self),
    {
        match self {
            SocketAddress::V4 { octets, port } => {
                push_ipv4(out, *octets);
                out.push(':');
                push_decimal(out, *port as u64);
            },
            SocketAddress::V6 { groups, port, flowinfo, scope_id } => {
                out.push('[');
                push_ipv6(out, *groups);
                if *scope_id != 0 {
                    out.push('%');
                    push_decimal(out, *scope_id as u64);
                }
                out.push(']');
                out.push(':');
                proof {
                    reveal_strlit("]:");
                    let scope = if *scope_id == 0 {
                        Seq::<char>::empty()
                    } else {
                        seq!['%'] + decimal_digits(*scope_id as nat)
                    };
                    assert(out@ == old(out)@ + (seq!['['] + ipv6_text(*groups) + scope + "]:"@));
                }
                push_decimal(out, *port as u64);
            },
        }
    }

    /// This address in text.
    pub fn to_string(&self) -> (r: String)
        ensures
            r@ == socket_text(*self),
    {
        let mut out: Vec<char> = Vec::new();
        self.push_text(&mut out);
        string_of(out.as_slice())
    }
}

/// A character of an address text: a digit, a lowercase hexadecimal
/// letter, or one of `.`, `:`, `[`, `]` and `%`.
pub open spec fn is_address_char(c: char) -> bool {
    ('0' <= c && c <= '9') || ('a' <= c && c <= 'f') || c == '.' || c == ':' || c == '[' || c
        == ']' || c == '%'
}

/// A text made of address characters.
pub open spec fn is_address_text(s: Seq<char>) -> bool {
    forall|i: int| 0 <= i < s.len() ==> is_address_char(#[trigger] s[i])
}

proof fn lemma_decimal_is_address_text(n: nat)
    ensures
        is_address_text(decimal_digits(n)),
        decimal_digits(n).len() > 0,
    decreases n,
{
    if n >= 10 {
        lemma_decimal_is_address_text(n / 10);
    }
}

proof fn lemma_hex_is_address_text(n: nat)
    ensures
        is_address_text(hex_digits(n)),
        hex_digits(n).len() > 0,
    decreases n,
{
    if n >= 16 {
        lemma_hex_is_address_text(n / 16);
    }
}

proof fn lemma_groups_are_address_text(groups: Seq<u16>)
    ensures
        is_address_text(groups_text(groups)),
    decreases groups.len(),
{
    let hex = |g: u16| hex_digits(g as nat);
    let parts = groups.map_values(hex);
    if groups.len() == 1 {
        lemma_hex_is_address_text(groups[0] as nat);
    } else if groups.len() > 1 {
        lemma_groups_are_address_text(groups.drop_last());
        assert(parts.drop_last() == groups.drop_last().map_values(hex));
        lemma_hex_is_address_text(groups.last() as nat);
    }
}

proof fn lemma_ipv4_is_address_text(ip: u32)
    ensures
        is_address_text(ipv4_text(ip)),
        ipv4_text(ip).len() > 0,
{
    lemma_decimal_is_address_text(octet(ip, 0));
    lemma_decimal_is_address_text(octet(ip, 1));
    lemma_decimal_is_address_text(octet(ip, 2));
    lemma_decimal_is_address_text(octet(ip, 3));
}

proof fn lemma_ipv6_is_address_text(ip: u128)
    ensures
        is_address_text(ipv6_text(ip)),
{
    let groups = groups_of(ip);
    reveal_strlit("::ffff:");
    reveal_strlit("::");
    if ip / 0x1_0000_0000 == 0xffff {
        lemma_ipv4_is_address_text((ip % 0x1_0000_0000) as u32);
    } else {
        match elided_run(groups) {
            Some((start, len)) => {
                lemma_groups_are_address_text(groups.take(start));
                lemma_groups_are_address_text(groups.skip(start + len));
            },
            None => {
                lemma_groups_are_address_text(groups);
            },
        }
    }
}

/// The text of a socket address is not empty and made of address
/// characters, none of which is whitespace or a comma.
pub proof fn lemma_socket_text_is_solid(addr: SocketAddress)
    ensures
        socket_text(addr).len() > 0,
        is_address_text(socket_text(addr)),
        forall|i: int|
            0 <= i < socket_text(addr).len() ==> !crate::text::is_space(
                #[trigger] socket_text(addr)[i],
            ),
{
    reveal_strlit("]:");
    match addr {
        SocketAddress::V4 { octets, port } => {
            lemma_ipv4_is_address_text(octets);
            lemma_decimal_is_address_text(port as nat);
        },
        SocketAddress::V6 { groups, port, flowinfo, scope_id } => {
            lemma_ipv6_is_address_text(groups);
            lemma_decimal_is_address_text(scope_id as nat);
            lemma_decimal_is_address_text(port as nat);
        },
    }
    assert forall|i: int| 0 <= i < socket_text(addr).len() implies !crate::text::is_space(
        #[trigger] socket_text(addr)[i],
    ) by {
        assert(is_address_char(socket_text(addr)[i]));
    }
}

} // verus!
