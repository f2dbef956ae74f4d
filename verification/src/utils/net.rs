//! IP addresses and networks as plain values.

use vstd::arithmetic::div_mod::{lemma_basic_div, lemma_div_denominator};
use vstd::arithmetic::power2::{
    lemma2_to64, lemma2_to64_rest, lemma_pow2_adds, lemma_pow2_pos, lemma_pow2_unfold, pow2,
};
use vstd::prelude::*;

use crate::utils::be::{
    be_bytes, be_uint, lemma_be_uint_of_bytes, lemma_pow256_values, octets16, octets4,
};

verus! {

/// An IPv4 address.
#[derive(Clone, Copy, Debug, PartialEq, Eq, Structural)]
pub struct Ipv4Addr {
    pub bits: u32,
}

/// An IPv6 address.
#[derive(Clone, Copy, Debug, PartialEq, Eq, Structural)]
pub struct Ipv6Addr {
    pub bits: u128,
}

/// An address of either family.
#[derive(Clone, Copy, Debug, PartialEq, Eq, Structural)]
pub enum IpAddr {
    V4(Ipv4Addr),
    V6(Ipv6Addr),
}

/// An IPv4 address with the length of the prefix that it shares with its
/// network.
#[derive(Clone, Copy, Debug, PartialEq, Eq, Structural)]
pub struct Ipv4Network {
    pub addr: Ipv4Addr,
    pub prefix: u8,
}

/// An IPv6 address with the length of the prefix that it shares with its
/// network.
#[derive(Clone, Copy, Debug, PartialEq, Eq, Structural)]
pub struct Ipv6Network {
    pub addr: Ipv6Addr,
    pub prefix: u8,
}

/// A network of either family.
#[derive(Clone, Copy, Debug, PartialEq, Eq, Structural)]
pub enum IpNetwork {
    V4(Ipv4Network),
    V6(Ipv6Network),
}

impl View for Ipv4Addr {
    type V = Ipv4Addr;

    open spec fn view(&self) -> Ipv4Addr {
        *self
    }
}

impl View for Ipv6Addr {
    type V = Ipv6Addr;

    open spec fn view(&self) -> Ipv6Addr {
        *self
    }
}

impl Ipv4Addr {
    /// The address that a 32 bit number denotes.
    pub fn from_bits(bits: u32) -> (r: Ipv4Addr)
        ensures
            r == (Ipv4Addr { bits }),
    {
        Ipv4Addr { bits }
    }

    /// Whether this is the address with no bit set.
    pub fn is_unspecified(&self) -> (r: bool)
        ensures
            r == (self.bits == 0),
    {
        self.bits == 0
    }

    /// The octets of the address, most significant first.
    pub fn octets(&self) -> (r: [u8; 4])
        ensures
            r@ == be_bytes(self.bits as nat, 4),
    {
        octets4(self.bits)
    }
}

impl Ipv6Addr {
    /// The address that a 128 bit number denotes.
    pub fn from_bits(bits: u128) -> (r: Ipv6Addr)
        ensures
            r == (Ipv6Addr { bits }),
    {
        Ipv6Addr { bits }
    }

    /// Whether this is the address with no bit set.
    pub fn is_unspecified(&self) -> (r: bool)
        ensures
            r == (self.bits == 0),
    {
        self.bits == 0
    }

    /// The octets of the address, most significant first.
    pub fn octets(&self) -> (r: [u8; 16])
        ensures
            r@ == be_bytes(self.bits as nat, 16),
    {
        octets16(self.bits)
    }
}

/// Whether two numbers of `width` bits agree in their `prefix` most
/// significant bits.
pub open spec fn same_prefix(a: nat, b: nat, width: nat, prefix: nat) -> bool {
    a / pow2((width - prefix) as nat) == b / pow2((width - prefix) as nat)
}

/// `ipnetwork::Ipv4Network::contains` compares the leading bits of two
/// addresses. A prefix of more than 32 bits makes no network.
#[verifier::external_body]
fn ipv4_network_contains(net: Ipv4Network, addr: Ipv4Addr) -> (r: bool)
    requires
        net.prefix <= 32,
    ensures
        r == same_prefix(net.addr.bits as nat, addr.bits as nat, 32, net.prefix as nat),
{
    let net = ipnetwork::Ipv4Network::new(net.addr.bits.into(), net.prefix).unwrap();
    net.contains(addr.bits.into())
}

/// `ipnetwork::Ipv6Network::contains` compares the leading bits of two
/// addresses. A prefix of more than 128 bits makes no network.
#[verifier::external_body]
fn ipv6_network_contains(net: Ipv6Network, addr: Ipv6Addr) -> (r: bool)
    requires
        net.prefix <= 128,
    ensures
        r == same_prefix(net.addr.bits as nat, addr.bits as nat, 128, net.prefix as nat),
{
    let net = ipnetwork::Ipv6Network::new(net.addr.bits.into(), net.prefix).unwrap();
    net.contains(addr.bits.into())
}

impl Ipv4Network {
    /// Whether the prefix length is one that there is.
    pub open spec fn wf(self) -> bool {
        self.prefix <= 32
    }

    /// Whether the address belongs to the network.
    pub open spec fn has(self, addr: Ipv4Addr) -> bool {
        same_prefix(self.addr.bits as nat, addr.bits as nat, 32, self.prefix as nat)
    }

    /// Whether the address belongs to the network.
    pub fn contains(&self, addr: Ipv4Addr) -> (r: bool)
        requires
            self.wf(),
        ensures
            r == self.has(addr),
    {
        ipv4_network_contains(*self, addr)
    }
}

impl Ipv6Network {
    /// Whether the prefix length is one that there is.
    pub open spec fn wf(self) -> bool {
        self.prefix <= 128
    }

    /// Whether the address belongs to the network.
    pub open spec fn has(self, addr: Ipv6Addr) -> bool {
        same_prefix(self.addr.bits as nat, addr.bits as nat, 128, self.prefix as nat)
    }

    /// Whether the address belongs to the network.
    pub fn contains(&self, addr: Ipv6Addr) -> (r: bool)
        requires
            self.wf(),
        ensures
            r == self.has(addr),
    {
        ipv6_network_contains(*self, addr)
    }
}

impl IpNetwork {
    /// Whether the prefix length is one that there is.
    pub open spec fn wf(self) -> bool {
        match self {
            IpNetwork::V4(net) => net.wf(),
            IpNetwork::V6(net) => net.wf(),
        }
    }
}

proof fn lemma_one_bit_more(a: nat, b: nat, k: nat)
    ensures
        a / pow2(k) == b / pow2(k) <==> {
            &&& a / pow2(k + 1) == b / pow2(k + 1)
            &&& (a / pow2(k)) % 2 == (b / pow2(k)) % 2
        },
{
    lemma_pow2_pos(k);
    lemma_pow2_unfold(k + 1);
    lemma_div_denominator(a as int, pow2(k) as int, 2);
    lemma_div_denominator(b as int, pow2(k) as int, 2);
    assert(pow2(k + 1) == pow2(k) * 2);
}

proof fn lemma_wide_pow2()
    ensures
        pow2(32) == 0x1_0000_0000,
        pow2(128) == u128::MAX + 1,
{
    lemma2_to64();
    lemma2_to64_rest();
    lemma_pow2_adds(64, 64);
    assert(0x1_0000_0000_0000_0000int * 0x1_0000_0000_0000_0000int == u128::MAX + 1)
        by (nonlinear_arith);
}

/// A network of prefix length zero has every address. Each bit more of the
/// prefix is one more bit in which the addresses have to agree. So the network
/// itself is always in, and at full length nothing else is.
pub proof fn lemma_ipv4_contains(net: Ipv4Network, addr: Ipv4Addr, r: bool, wider: bool)
    requires
        call_ensures(Ipv4Network::contains, (&net, addr), r),
        net.prefix <= 32,
        net.prefix > 0 ==> call_ensures(
            Ipv4Network::contains,
            (&Ipv4Network { prefix: (net.prefix - 1) as u8, ..net }, addr),
            wider,
        ),
    ensures
        net.prefix == 0 ==> r,
        net.prefix > 0 ==> (r <==> wider && (net.addr.bits as nat / pow2(
            (32 - net.prefix) as nat,
        )) % 2 == (addr.bits as nat / pow2((32 - net.prefix) as nat)) % 2),
        addr == net.addr ==> r,
        net.prefix == 32 ==> (r <==> addr == net.addr),
{
    lemma_wide_pow2();
    let a = net.addr.bits as nat;
    let b = addr.bits as nat;
    if net.prefix == 0 {
        lemma_basic_div(a as int, pow2(32) as int);
        lemma_basic_div(b as int, pow2(32) as int);
    } else {
        lemma_one_bit_more(a, b, (32 - net.prefix) as nat);
    }
    if net.prefix == 32 {
        lemma2_to64();
    }
}

/// The same holds of IPv6.
pub proof fn lemma_ipv6_contains(net: Ipv6Network, addr: Ipv6Addr, r: bool, wider: bool)
    requires
        call_ensures(Ipv6Network::contains, (&net, addr), r),
        net.prefix <= 128,
        net.prefix > 0 ==> call_ensures(
            Ipv6Network::contains,
            (&Ipv6Network { prefix: (net.prefix - 1) as u8, ..net }, addr),
            wider,
        ),
    ensures
        net.prefix == 0 ==> r,
        net.prefix > 0 ==> (r <==> wider && (net.addr.bits as nat / pow2(
            (128 - net.prefix) as nat,
        )) % 2 == (addr.bits as nat / pow2((128 - net.prefix) as nat)) % 2),
        addr == net.addr ==> r,
        net.prefix == 128 ==> (r <==> addr == net.addr),
{
    lemma_wide_pow2();
    let a = net.addr.bits as nat;
    let b = addr.bits as nat;
    if net.prefix == 0 {
        lemma_basic_div(a as int, pow2(128) as int);
        lemma_basic_div(b as int, pow2(128) as int);
    } else {
        lemma_one_bit_more(a, b, (128 - net.prefix) as nat);
    }
    if net.prefix == 128 {
        lemma2_to64();
    }
}

/// What a network has, as the contracts of others tell it, is what `contains`
/// tells.
pub proof fn lemma_has(
    net4: Ipv4Network,
    v4: Ipv4Addr,
    r4: bool,
    net6: Ipv6Network,
    v6: Ipv6Addr,
    r6: bool,
)
    requires
        call_ensures(Ipv4Network::contains, (&net4, v4), r4),
        call_ensures(Ipv6Network::contains, (&net6, v6), r6),
    ensures
        net4.has(v4) == r4,
        net6.has(v6) == r6,
{
}

/// An address is made of the number that it is told, and is unspecified only if
/// that is zero. Its octets make up the number again.
pub proof fn lemma_addrs(
    bits: u32,
    v4: Ipv4Addr,
    octets: [u8; 4],
    zero: bool,
    wide: u128,
    v6: Ipv6Addr,
    wide_zero: bool,
)
    requires
        call_ensures(Ipv4Addr::from_bits, (bits,), v4),
        call_ensures(Ipv4Addr::octets, (&v4,), octets),
        call_ensures(Ipv4Addr::is_unspecified, (&v4,), zero),
        call_ensures(Ipv6Addr::from_bits, (wide,), v6),
        call_ensures(Ipv6Addr::is_unspecified, (&v6,), wide_zero),
    ensures
        v4.bits == bits,
        octets@[0] * 0x100_0000 + octets@[1] * 0x1_0000 + octets@[2] * 0x100 + octets@[3] == bits,
        zero <==> bits == 0,
        v6.bits == wide,
        wide_zero <==> wide == 0,
{
    reveal_with_fuel(be_bytes, 5);
}

/// The octets of an IPv6 address make up its number, most significant first.
pub proof fn lemma_ipv6_octets(v6: Ipv6Addr, octets: [u8; 16])
    requires
        call_ensures(Ipv6Addr::octets, (&v6,), octets),
    ensures
        be_uint(octets@) == v6.bits,
        octets@.len() == 16,
{
    lemma_pow256_values();
    lemma_be_uint_of_bytes(v6.bits as nat, 16);
}

} // verus!
