//! IPv4 addresses, prefixes and socket addresses.
use crate::text;
use vstd::arithmetic::power2::*;
use vstd::bits::*;
use vstd::prelude::*;
use vstd::string::*;

verus! {

/// An IPv4 address, `a.b.c.d`.
#[derive(Debug, Clone, Copy, PartialEq, Eq, Structural)]
pub struct Ipv4Addr {
    pub a: u8,
    pub b: u8,
    pub c: u8,
    pub d: u8,
}

/// An IPv6 or an IPv4 address. The segments of an IPv6 address are in order.
#[derive(Debug, Clone, Copy)]
pub enum IpAddr {
    V4(Ipv4Addr),
    V6([u16; 8]),
}

/// An address and a port.
#[derive(Debug, Clone, Copy)]
pub struct SocketAddr {
    pub ip: IpAddr,
    pub port: u16,
}

/// An IPv4 address and a port.
#[derive(Debug, Clone, Copy, PartialEq, Eq, Structural)]
pub struct SocketAddrV4 {
    pub ip: Ipv4Addr,
    pub port: u16,
}

/// The address that four bytes hold in network order.
pub open spec fn ipv4_at(s: Seq<u8>, i: int) -> Ipv4Addr {
    Ipv4Addr { a: s[i], b: s[i + 1], c: s[i + 2], d: s[i + 3] }
}

impl Ipv4Addr {
    /// The four bytes in network order.
    pub open spec fn bytes(self) -> Seq<u8> {
        seq![self.a, self.b, self.c, self.d]
    }

    /// The address as a number.
    pub open spec fn bits(self) -> nat {
        (((self.a * 256 + self.b) * 256 + self.c) * 256 + self.d) as nat
    }

    /// Whether this is `0.0.0.0`.
    pub open spec fn zero(self) -> bool {
        self.a == 0 && self.b == 0 && self.c == 0 && self.d == 0
    }

    /// Whether this is in `224.0.0.0/4`.
    pub open spec fn multicast(self) -> bool {
        224 <= self.a <= 239
    }

    /// Whether this is `255.255.255.255`.
    pub open spec fn broadcast_all(self) -> bool {
        self.a == 255 && self.b == 255 && self.c == 255 && self.d == 255
    }

    /// Dotted decimal notation.
    pub open spec fn text(self) -> Seq<char> {
        text::decimal(self.a as nat) + "."@ + text::decimal(self.b as nat) + "."@ + text::decimal(
            self.c as nat,
        ) + "."@ + text::decimal(self.d as nat)
    }

    pub fn new(a: u8, b: u8, c: u8, d: u8) -> (ip: Self)
        ensures
            ip == (Ipv4Addr { a, b, c, d }),
    {
        Ipv4Addr { a, b, c, d }
    }

    /// The address in the four bytes of `s` from `i` on.
    pub fn read(s: &[u8], i: usize) -> (ip: Self)
        requires
            i + 4 <= s@.len(),
        ensures
            ip == ipv4_at(s@, i as int),
    {
        Ipv4Addr { a: s[i], b: s[i + 1], c: s[i + 2], d: s[i + 3] }
    }

    pub fn octets(&self) -> (octets: [u8; 4])
        ensures
            octets@ == self.bytes(),
    {
        let octets: [u8; 4] = [self.a, self.b, self.c, self.d];
        assert(octets@ =~= self.bytes());
        octets
    }

    pub fn to_bits(&self) -> (bits: u32)
        ensures
            bits == self.bits(),
    {
        ((self.a as u32 * 256 + self.b as u32) * 256 + self.c as u32) * 256 + self.d as u32
    }

    pub fn is_unspecified(&self) -> (yes: bool)
        ensures
            yes == self.zero(),
    {
        self.a == 0 && self.b == 0 && self.c == 0 && self.d == 0
    }

    pub fn is_multicast(&self) -> (yes: bool)
        ensures
            yes == self.multicast(),
    {
        224 <= self.a && self.a <= 239
    }

    pub fn is_broadcast(&self) -> (yes: bool)
        ensures
            yes == self.broadcast_all(),
    {
        self.a == 255 && self.b == 255 && self.c == 255 && self.d == 255
    }

    pub fn push_text(&self, out: &mut String)
        ensures
            final(out)@ == old(out)@ + self.text(),
    {
        let ghost start = out@;
        text::push_decimal(out, self.a as u64);
        out.append(".");
        text::push_decimal(out, self.b as u64);
        out.append(".");
        text::push_decimal(out, self.c as u64);
        out.append(".");
        text::push_decimal(out, self.d as u64);
        assert(out@ =~= start + self.text());
    }

    pub fn to_text(&self) -> (out: String)
        ensures
            out@ == self.text(),
    {
        let mut out = String::new();
        self.push_text(&mut out);
        assert(out@ =~= self.text());
        out
    }
}

impl SocketAddrV4 {
    /// The address, a colon and the port.
    pub open spec fn text(self) -> Seq<char> {
        self.ip.text() + ":"@ + text::decimal(self.port as nat)
    }

    pub fn new(ip: Ipv4Addr, port: u16) -> (address: Self)
        ensures
            address == (SocketAddrV4 { ip, port }),
    {
        SocketAddrV4 { ip, port }
    }

    pub fn to_text(&self) -> (out: String)
        ensures
            out@ == self.text(),
    {
        let mut out = self.ip.to_text();
        out.append(":");
        text::push_decimal(&mut out, self.port as u64);
        out
    }
}

/// Different addresses are different numbers.
pub proof fn lemma_bits_injective(x: Ipv4Addr, y: Ipv4Addr)
    requires
        x.bits() == y.bits(),
    ensures
        x == y,
{
}

// ---------------------------------------------------------------------------
// Addresses from text

/// The octet that `s` denotes: one to three digits, at most 255, and no leading
/// zero.
pub open spec fn octet(s: Seq<u8>) -> Option<u8> {
    if 1 <= s.len() <= 3 && text::all_digits(s, 10) && (s.len() > 1 ==> s[0] != 48)
        && text::digits_value(s, 10) <= 255 {
        Some(text::digits_value(s, 10) as u8)
    } else {
        None
    }
}

/// The address that `s` denotes: four octets with dots between them.
pub open spec fn ipv4(s: Seq<u8>) -> Option<Ipv4Addr> {
    let parts = text::split(s, 46);
    if parts.len() == 4 && octet(parts[0]) is Some && octet(parts[1]) is Some && octet(
        parts[2],
    ) is Some && octet(parts[3]) is Some {
        Some(
            Ipv4Addr {
                a: octet(parts[0])->0,
                b: octet(parts[1])->0,
                c: octet(parts[2])->0,
                d: octet(parts[3])->0,
            },
        )
    } else {
        None
    }
}

fn parse_octet(s: &[u8]) -> (n: Option<u8>)
    ensures
        n == octet(s@),
{
    if s.len() < 1 || s.len() > 3 || (s.len() > 1 && s[0] == 48) {
        return None;
    }
    if s[0] == 43 {
        assert(text::digit_value(s@[0], 10) == 10);
        return None;
    }
    match text::parse_number(s, 10, 255) {
        Some(n) => Some(n as u8),
        None => None,
    }
}

/// Parses dotted decimal notation.
pub fn parse_ipv4(s: &[u8]) -> (ip: Option<Ipv4Addr>)
    ensures
        ip == ipv4(s@),
{
    let parts = text::split_bytes(s, 46);
    if parts.len() != 4 {
        assert(text::views(parts@).len() == parts@.len());
        return None;
    }
    let a = parse_octet(parts[0]);
    let b = parse_octet(parts[1]);
    let c = parse_octet(parts[2]);
    let d = parse_octet(parts[3]);
    assert(forall|i: int| 0 <= i < 4 ==> text::views(parts@)[i] == parts@[i]@);
    match (a, b, c, d) {
        (Some(a), Some(b), Some(c), Some(d)) => Some(Ipv4Addr { a, b, c, d }),
        _ => None,
    }
}

// ---------------------------------------------------------------------------
// Prefixes

/// How many addresses share a prefix of that length.
pub open spec fn block(prefix: nat) -> nat
    recommends
        prefix <= 32,
{
    pow2((32 - prefix) as nat)
}

pub proof fn lemma_block(prefix: nat)
    requires
        1 <= prefix <= 32,
    ensures
        1 <= block(prefix) <= 0x8000_0000,
        block(prefix) == 1u32 << (32 - prefix) as u32,
{
    let k = (32 - prefix) as nat;
    lemma_u32_pow2_no_overflow(k);
    lemma_pow2_pos(k);
    if k < 31 {
        lemma_pow2_strictly_increases(k, 31);
    }
    lemma2_to64();
    lemma_u32_shl_is_mul(1, k as u32);
}

/// The part of an address behind its prefix.
pub fn host_bits(bits: u32, prefix: u8) -> (host: u32)
    requires
        1 <= prefix <= 32,
    ensures
        host == bits as nat % block(prefix as nat),
{
    let k: u32 = 32 - prefix as u32;
    proof {
        lemma_block(prefix as nat);
        lemma_u32_low_bits_mask_is_mod(bits, k as nat);
        lemma_u32_pow2_no_overflow(k as nat);
    }
    bits % (1u32 << k)
}

} // verus!
