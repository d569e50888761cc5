//! Addresses as plain numbers: an IP address, a network in CIDR notation and
//! a UDP endpoint, with their texts.

use crate::text::{
    decimal_text, parse_digits, push_str, read_digits, string_of_range, write_decimal,
};
use vstd::prelude::*;

verus! {

/// An IP address: the 32 or 128 bits as one number, first byte most significant.
#[derive(Clone, Copy, Debug, PartialEq, Eq, PartialOrd, Ord, Hash, Structural)]
pub enum IpAddress {
    V4(u32),
    V6(u128),
}

/// An address with the length of its network prefix.
#[derive(Clone, Copy, Debug, PartialEq, Eq, PartialOrd, Ord, Hash, Structural)]
pub struct IpNet {
    pub ip: IpAddress,
    pub prefix: u8,
}

/// An address and a UDP port. `scope_id` is the zone of a scoped IPv6
/// address and 0 otherwise.
#[derive(Clone, Copy, Debug, PartialEq, Eq, PartialOrd, Ord, Hash, Structural)]
pub struct Endpoint {
    pub ip: IpAddress,
    pub port: u16,
    pub scope_id: u32,
}

/// The network that a text in CIDR notation stands for, as
/// `ipnetwork::IpNetwork` reads it.
pub uninterp spec fn ip_net_of_text(text: Seq<char>) -> Option<IpNet>;

/// The text of an address, as its `Display` writes it.
pub uninterp spec fn ip_text(ip: IpAddress) -> Seq<char>;

/// `str::parse::<ipnetwork::IpNetwork>`: what it reads is a function of the
/// text alone, and the prefix of a network it accepts is at most 32 for
/// IPv4 and 128 for IPv6.
#[verifier::external_body]
fn parse_ip_net(s: &str) -> (r: Option<IpNet>)
    ensures
        r == ip_net_of_text(s@),
        r matches Some(n) ==> n.wf(),
{
    match s.parse::<ipnetwork::IpNetwork>() {
        Ok(ipnetwork::IpNetwork::V4(n)) => Some(
            IpNet { ip: IpAddress::V4(n.ip().into()), prefix: n.prefix() },
        ),
        Ok(ipnetwork::IpNetwork::V6(n)) => Some(
            IpNet { ip: IpAddress::V6(n.ip().into()), prefix: n.prefix() },
        ),
        Err(_) => None,
    }
}

/// `ipnetwork::Ipv4Network::ip` and the address's `to_string`: the text is a
/// function of the address alone.
#[verifier::external_body]
fn ipv4_text(addr: u32) -> (r: String)
    ensures
        r@ == ip_text(IpAddress::V4(addr)),
{
    ipnetwork::Ipv4Network::new(addr.into(), 32).unwrap().ip().to_string()
}

/// `ipnetwork::Ipv6Network::ip` and the address's `to_string`: the text is a
/// function of the address alone.
#[verifier::external_body]
fn ipv6_text(addr: u128) -> (r: String)
    ensures
        r@ == ip_text(IpAddress::V6(addr)),
{
    ipnetwork::Ipv6Network::new(addr.into(), 128).unwrap().ip().to_string()
}

/// Index of the first `c` in `s`, or the length of `s` where there is none.
pub open spec fn position(s: Seq<char>, c: char) -> int
    decreases s.len(),
{
    if s.len() == 0 {
        0
    } else if s[0] == c {
        0
    } else {
        1 + position(s.drop_first(), c)
    }
}

/// The position is within the text, no earlier place holds the character,
/// and the position holds it unless it is the end.
pub proof fn lemma_position(s: Seq<char>, c: char)
    ensures
        0 <= position(s, c) <= s.len(),
        forall|i: int| 0 <= i < position(s, c) ==> s[i] != c,
        position(s, c) < s.len() ==> s[position(s, c)] == c,
    decreases s.len(),
{
    if s.len() > 0 && s[0] != c {
        let rest = s.drop_first();
        lemma_position(rest, c);
        assert forall|i: int| 0 <= i < position(s, c) implies s[i] != c by {
            if i > 0 {
                assert(s[i] == rest[i - 1]);
            }
        }
    }
}

/// The first place with these three properties is the position.
pub proof fn lemma_position_is(s: Seq<char>, c: char, k: int)
    requires
        0 <= k <= s.len(),
        forall|i: int| 0 <= i < k ==> s[i] != c,
        k < s.len() ==> s[k] == c,
    ensures
        position(s, c) == k,
{
    lemma_position(s, c);
    let p = position(s, c);
    if p < k {
        assert(s[p] == c);
    } else if k < p {
        assert(s[k] == c);
    }
}

/// Finds the first `c` from `from` up to `to`.
pub fn find(chars: &Vec<char>, from: usize, to: usize, c: char) -> (at: usize)
    requires
        from <= to <= chars@.len(),
    ensures
        at == from + position(chars@.subrange(from as int, to as int), c),
        from <= at <= to,
{
    let ghost s = chars@.subrange(from as int, to as int);
    let mut i: usize = from;
    while i < to && chars[i] != c
        invariant
            from <= i <= to <= chars@.len(),
            s == chars@.subrange(from as int, to as int),
            forall|j: int| 0 <= j < i - from ==> s[j] != c,
        decreases to - i,
    {
        i = i + 1;
    }
    proof {
        lemma_position_is(s, c, i - from);
    }
    i
}

impl IpAddress {
    /// Number of bits of the address.
    pub open spec fn spec_bits(self) -> nat {
        match self {
            IpAddress::V4(_) => 32,
            IpAddress::V6(_) => 128,
        }
    }

    /// Number of bits of the address.
    pub fn bits(&self) -> (b: u8)
        ensures
            b as nat == self.spec_bits(),
    {
        match self {
            IpAddress::V4(_) => 32,
            IpAddress::V6(_) => 128,
        }
    }

    /// The four parts of a dotted IPv4 address as one address.
    pub fn v4(a: u8, b: u8, c: u8, d: u8) -> (ip: IpAddress)
        ensures
            ip == IpAddress::V4(
                (a as u32 * 0x100_0000 + b as u32 * 0x1_0000 + c as u32 * 0x100 + d as u32) as u32,
            ),
    {
        IpAddress::V4(a as u32 * 0x100_0000 + b as u32 * 0x1_0000 + c as u32 * 0x100 + d as u32)
    }

    /// Appends the address's text.
    pub fn write(&self, out: &mut Vec<char>)
        ensures
            final(out)@ == old(out)@ + ip_text(*self),
    {
        let s = match self {
            IpAddress::V4(a) => ipv4_text(*a),
            IpAddress::V6(a) => ipv6_text(*a),
        };
        push_str(out, s.as_str());
    }

    /// The network that holds this address alone.
    pub fn host_net(&self) -> (n: IpNet)
        ensures
            n == self.spec_host_net(),
            n.wf(),
    {
        IpNet { ip: *self, prefix: self.bits() }
    }

    /// The network that holds this address alone.
    pub open spec fn spec_host_net(self) -> IpNet {
        IpNet { ip: self, prefix: self.spec_bits() as u8 }
    }
}

/// The address with all bits after the first `prefix` cleared.
pub open spec fn masked_v4(addr: u32, prefix: u8) -> u32 {
    if prefix == 0 {
        0
    } else if prefix >= 32 {
        addr
    } else {
        addr & !(0xffff_ffffu32 >> prefix)
    }
}

/// The address with all bits after the first `prefix` cleared.
pub open spec fn masked_v6(addr: u128, prefix: u8) -> u128 {
    if prefix == 0 {
        0
    } else if prefix >= 128 {
        addr
    } else {
        addr & !(0xffff_ffff_ffff_ffff_ffff_ffff_ffff_ffffu128 >> prefix)
    }
}

impl IpNet {
    /// The prefix is no longer than the address.
    pub open spec fn wf(self) -> bool {
        self.prefix as nat <= self.ip.spec_bits()
    }

    /// The lowest address of the network, with the same prefix.
    pub open spec fn spec_network(self) -> IpNet {
        match self.ip {
            IpAddress::V4(a) => IpNet { ip: IpAddress::V4(masked_v4(a, self.prefix)), prefix: self.prefix },
            IpAddress::V6(a) => IpNet { ip: IpAddress::V6(masked_v6(a, self.prefix)), prefix: self.prefix },
        }
    }

    /// The text in CIDR notation.
    pub open spec fn spec_text(self) -> Seq<char> {
        ip_text(self.ip) + seq!['/'] + decimal_text(self.prefix as nat)
    }

    /// `None` where the prefix is longer than the address.
    pub fn new(ip: IpAddress, prefix: u8) -> (n: Option<IpNet>)
        ensures
            n == if prefix as nat <= ip.spec_bits() {
                Some(IpNet { ip, prefix })
            } else {
                None
            },
    {
        if prefix <= ip.bits() {
            Some(IpNet { ip, prefix })
        } else {
            None
        }
    }

    /// The lowest address of the network, with the same prefix.
    pub fn network(&self) -> (n: IpNet)
        ensures
            n == self.spec_network(),
            self.wf() ==> n.wf(),
    {
        match self.ip {
            IpAddress::V4(a) => {
                let m: u32 = if self.prefix == 0 {
                    0
                } else if self.prefix >= 32 {
                    a
                } else {
                    a & !(0xffff_ffffu32 >> self.prefix)
                };
                IpNet { ip: IpAddress::V4(m), prefix: self.prefix }
            },
            IpAddress::V6(a) => {
                let m: u128 = if self.prefix == 0 {
                    0
                } else if self.prefix >= 128 {
                    a
                } else {
                    a & !(0xffff_ffff_ffff_ffff_ffff_ffff_ffff_ffffu128 >> self.prefix)
                };
                IpNet { ip: IpAddress::V6(m), prefix: self.prefix }
            },
        }
    }

    /// `0.0.0.0/0`.
    pub fn default_v4() -> (n: IpNet)
        ensures
            n == (IpNet { ip: IpAddress::V4(0), prefix: 0 }),
    {
        IpNet { ip: IpAddress::V4(0), prefix: 0 }
    }

    /// `::/0`.
    pub fn default_v6() -> (n: IpNet)
        ensures
            n == (IpNet { ip: IpAddress::V6(0), prefix: 0 }),
    {
        IpNet { ip: IpAddress::V6(0), prefix: 0 }
    }

    /// Reads a network from the characters from `from` up to `to`.
    pub fn parse(chars: &Vec<char>, from: usize, to: usize) -> (n: Option<IpNet>)
        requires
            from <= to <= chars@.len(),
        ensures
            n == ip_net_of_text(chars@.subrange(from as int, to as int)),
            n matches Some(net) ==> net.wf(),
    {
        let s = string_of_range(chars, from, to);
        parse_ip_net(s.as_str())
    }

    /// Appends the network in CIDR notation.
    pub fn write(&self, out: &mut Vec<char>)
        ensures
            final(out)@ == old(out)@ + self.spec_text(),
    {
        let ghost before = out@;
        self.ip.write(out);
        out.push('/');
        write_decimal(out, self.prefix as u64);
        proof {
            assert(out@ =~= before + self.spec_text());
        }
    }
}


/// A number written with digits alone, at least one, and at most `max`.
pub open spec fn strict_number(s: Seq<char>, max: nat) -> Option<nat> {
    if s.len() == 0 {
        None
    } else {
        match parse_digits(s, max) {
            Ok(v) => Some(v),
            Err(_) => None,
        }
    }
}

/// The address that a text without a prefix stands for.
pub open spec fn bare_ip_of_text(s: Seq<char>) -> Option<IpAddress> {
    if position(s, '/') == s.len() {
        match ip_net_of_text(s) {
            Some(n) => if n.prefix as nat == n.ip.spec_bits() {
                Some(n.ip)
            } else {
                None
            },
            None => None,
        }
    } else {
        None
    }
}

/// The endpoint that a text stands for: `address:port` for IPv4, and
/// `[address]:port` or `[address%zone]:port` for IPv6.
pub open spec fn endpoint_of_text(s: Seq<char>) -> Option<Endpoint> {
    if s.len() > 0 && s[0] == '[' {
        let close = position(s, ']');
        if close + 1 < s.len() && s[close + 1] == ':' {
            let inside = s.subrange(1, close);
            let pct = position(inside, '%');
            let scope = if pct < inside.len() {
                strict_number(inside.subrange(pct + 1, inside.len() as int), 0xffff_ffff)
            } else {
                Some(0nat)
            };
            let port = strict_number(s.subrange(close + 2, s.len() as int), 0xffff);
            match (bare_ip_of_text(inside.subrange(0, pct)), scope, port) {
                (Some(IpAddress::V6(a)), Some(z), Some(p)) => Some(
                    Endpoint { ip: IpAddress::V6(a), port: p as u16, scope_id: z as u32 },
                ),
                _ => None,
            }
        } else {
            None
        }
    } else {
        let colon = position(s, ':');
        if colon < s.len() {
            match (
                bare_ip_of_text(s.subrange(0, colon)),
                strict_number(s.subrange(colon + 1, s.len() as int), 0xffff),
            ) {
                (Some(IpAddress::V4(a)), Some(p)) => Some(
                    Endpoint { ip: IpAddress::V4(a), port: p as u16, scope_id: 0 },
                ),
                _ => None,
            }
        } else {
            None
        }
    }
}

/// Reads a number written with digits alone.
fn read_strict(chars: &Vec<char>, from: usize, to: usize, max: u64) -> (r: Option<u64>)
    requires
        from <= to <= chars@.len(),
    ensures
        r is Some <==> strict_number(chars@.subrange(from as int, to as int), max as nat) is Some,
        r matches Some(v) ==> strict_number(chars@.subrange(from as int, to as int), max as nat)
            == Some(v as nat) && v <= max,
{
    if from == to {
        return None;
    }
    proof {
        crate::text::lemma_parse_digits_bound(chars@.subrange(from as int, to as int), max as nat);
    }
    match read_digits(chars, from, to, max) {
        Ok(v) => Some(v),
        Err(_) => None,
    }
}

/// Reads an address without a prefix.
fn read_bare_ip(chars: &Vec<char>, from: usize, to: usize) -> (r: Option<IpAddress>)
    requires
        from <= to <= chars@.len(),
    ensures
        r == bare_ip_of_text(chars@.subrange(from as int, to as int)),
{
    if find(chars, from, to, '/') != to {
        return None;
    }
    match IpNet::parse(chars, from, to) {
        Some(n) => if n.prefix == n.ip.bits() {
            Some(n.ip)
        } else {
            None
        },
        None => None,
    }
}

impl Endpoint {
    /// Only an IPv6 endpoint has a zone.
    pub open spec fn wf(self) -> bool {
        self.ip is V4 ==> self.scope_id == 0
    }

    /// The endpoint as text.
    pub open spec fn spec_text(self) -> Seq<char> {
        match self.ip {
            IpAddress::V4(_) => ip_text(self.ip) + seq![':'] + decimal_text(self.port as nat),
            IpAddress::V6(_) => seq!['['] + ip_text(self.ip) + (if self.scope_id != 0 {
                seq!['%'] + decimal_text(self.scope_id as nat)
            } else {
                Seq::<char>::empty()
            }) + seq![']', ':'] + decimal_text(self.port as nat),
        }
    }

    /// An endpoint without a zone.
    pub fn new(ip: IpAddress, port: u16) -> (e: Endpoint)
        ensures
            e == (Endpoint { ip, port, scope_id: 0 }),
            e.wf(),
    {
        Endpoint { ip, port, scope_id: 0 }
    }

    /// Reads an endpoint from the characters from `from` up to `to`.
    pub fn parse(chars: &Vec<char>, from: usize, to: usize) -> (e: Option<Endpoint>)
        requires
            from <= to <= chars@.len(),
        ensures
            e == endpoint_of_text(chars@.subrange(from as int, to as int)),
            e matches Some(x) ==> x.wf(),
    {
        let ghost s = chars@.subrange(from as int, to as int);
        if from < to && chars[from] == '[' {
            let close = find(chars, from, to, ']');
            proof {
                lemma_position(s, ']');
                assert(s[0] == chars@[from as int]);
            }
            if close < to && to - close > 1 && chars[close + 1] == ':' {
                proof {
                    assert(s[close + 1 - from] == chars@[close + 1]);
                }
                let pct = find(chars, from + 1, close, '%');
                let ghost inside = s.subrange(1, close - from);
                proof {
                    assert(inside =~= chars@.subrange(from + 1, close as int));
                    assert(inside.subrange(0, pct - (from + 1)) =~= chars@.subrange(
                        from + 1,
                        pct as int,
                    ));
                    assert(s.subrange(close + 2 - from, s.len() as int) =~= chars@.subrange(
                        close + 2,
                        to as int,
                    ));
                    if pct < close {
                        assert(inside.subrange(pct - from, inside.len() as int) =~= chars@.subrange(
                            pct + 1,
                            close as int,
                        ));
                    }
                }
                let scope: Option<u64> = if pct < close {
                    read_strict(chars, pct + 1, close, 0xffff_ffff)
                } else {
                    Some(0)
                };
                let port = read_strict(chars, close + 2, to, 0xffff);
                let ip = read_bare_ip(chars, from + 1, pct);
                match (ip, scope, port) {
                    (Some(IpAddress::V6(a)), Some(z), Some(p)) => Some(
                        Endpoint { ip: IpAddress::V6(a), port: p as u16, scope_id: z as u32 },
                    ),
                    _ => None,
                }
            } else {
                None
            }
        } else {
            let colon = find(chars, from, to, ':');
            if colon < to {
                proof {
                    assert(s.subrange(0, colon - from) =~= chars@.subrange(
                        from as int,
                        colon as int,
                    ));
                    assert(s.subrange(colon + 1 - from, s.len() as int) =~= chars@.subrange(
                        colon + 1,
                        to as int,
                    ));
                }
                let ip = read_bare_ip(chars, from, colon);
                let port = read_strict(chars, colon + 1, to, 0xffff);
                match (ip, port) {
                    (Some(IpAddress::V4(a)), Some(p)) => Some(
                        Endpoint { ip: IpAddress::V4(a), port: p as u16, scope_id: 0 },
                    ),
                    _ => None,
                }
            } else {
                None
            }
        }
    }

    /// Appends the endpoint as text.
    pub fn write(&self, out: &mut Vec<char>)
        ensures
            final(out)@ == old(out)@ + self.spec_text(),
    {
        let ghost before = out@;
        match self.ip {
            IpAddress::V4(_) => {
                self.ip.write(out);
                out.push(':');
                write_decimal(out, self.port as u64);
                proof {
                    assert(out@ =~= before + self.spec_text());
                }
            },
            IpAddress::V6(_) => {
                out.push('[');
                self.ip.write(out);
                if self.scope_id != 0 {
                    out.push('%');
                    write_decimal(out, self.scope_id as u64);
                }
                out.push(']');
                out.push(':');
                write_decimal(out, self.port as u64);
                proof {
                    assert(out@ =~= before + self.spec_text());
                }
            },
        }
    }
}

} // verus!
