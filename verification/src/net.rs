//! IPv4 networks in CIDR notation: parsing, address arithmetic, host ranges
//! and dotted-quad rendering.

use vstd::prelude::*;
use vstd::arithmetic::power2::{
    pow2, lemma_pow2_unfold, lemma2_to64, lemma_pow2_adds, lemma_pow2_pos,
    lemma_pow2_strictly_increases,
};
use crate::text::{decimal, push_char, push_decimal};

verus! {

/// An IPv4 network: an address (host-order `u32`) and a prefix length.
#[derive(Clone, Copy, PartialEq, Eq, Structural, Debug)]
pub struct Ipv4Cidr {
    pub addr: u32,
    pub prefix_len: u8,
}

/// What `<ipnet::Ipv4Net as FromStr>::from_str` yields on a string: the
/// address as a host-order `u32` and the prefix length, or `None` when the
/// string is rejected.
pub uninterp spec fn ipv4_net_from_str(s: Seq<char>) -> Option<(u32, u8)>;

/// The network that a parse result stands for.
pub open spec fn cidr_of(p: Option<(u32, u8)>) -> Option<Ipv4Cidr> {
    match p {
        Some(v) => Some(Ipv4Cidr { addr: v.0, prefix_len: v.1 }),
        None => None,
    }
}

/// Whether `s` is accepted as an IPv4 network.
pub open spec fn cidr_parses(s: Seq<char>) -> bool {
    ipv4_net_from_str(s) is Some
}

/// The network parsed from `s` (meaningful when `cidr_parses(s)`).
pub open spec fn parsed_cidr(s: Seq<char>) -> Ipv4Cidr {
    cidr_of(ipv4_net_from_str(s)).unwrap()
}

/// The text of the error that `ipnet` reports for a rejected network.
pub open spec fn addr_parse_error_text() -> Seq<char> {
    "invalid IP address syntax"@
}

/// Calls `<ipnet::Ipv4Net as FromStr>::from_str`. The result is named by
/// `ipv4_net_from_str`; the contract adds that an accepted prefix length is at
/// most 32 (`Ipv4Net::new` rejects larger ones) and that a rejection is
/// reported with the fixed text of `ipnet::AddrParseError`'s `Display`.
#[verifier::external_body]
pub(crate) fn ipnet_from_str(s: &str) -> (r: Result<(u32, u8), String>)
    ensures
        (r is Ok) == cidr_parses(s@),
        r matches Ok(v) ==> ipv4_net_from_str(s@) == Some(v) && v.1 <= 32,
        r matches Err(m) ==> m@ == addr_parse_error_text(),
{
    match s.parse::<ipnet::Ipv4Net>() {
        Ok(n) => Ok((u32::from(n.addr()), n.prefix_len())),
        Err(e) => Err(e.to_string()),
    }
}

/// Number of addresses in a network with the given prefix length.
pub open spec fn block_size(prefix_len: nat) -> nat {
    pow2((32 - prefix_len) as nat)
}

/// The network address: `addr` with the host bits cleared.
pub open spec fn network_of(addr: nat, prefix_len: nat) -> nat {
    (addr - addr % block_size(prefix_len)) as nat
}

/// The broadcast address: `addr` with the host bits set.
pub open spec fn broadcast_of(addr: nat, prefix_len: nat) -> nat {
    (network_of(addr, prefix_len) + block_size(prefix_len) - 1) as nat
}

/// First usable host: the network address itself for /31 and /32, the one
/// after it otherwise.
pub open spec fn first_host(addr: nat, prefix_len: nat) -> nat {
    if prefix_len < 31 { network_of(addr, prefix_len) + 1 } else { network_of(addr, prefix_len) }
}

/// Last usable host: the broadcast address itself for /31 and /32, the one
/// before it otherwise.
pub open spec fn last_host(addr: nat, prefix_len: nat) -> nat {
    if prefix_len < 31 { (broadcast_of(addr, prefix_len) - 1) as nat } else { broadcast_of(addr, prefix_len) }
}

/// The host addresses of a network, in increasing order.
pub open spec fn host_range(addr: nat, prefix_len: nat) -> Seq<u32> {
    let lo = first_host(addr, prefix_len);
    let hi = last_host(addr, prefix_len);
    Seq::new((hi + 1 - lo) as nat, |i: int| (lo + i) as u32)
}

/// The host addresses of `net`.
pub open spec fn hosts_of(net: Ipv4Cidr) -> Seq<u32> {
    host_range(net.addr as nat, net.prefix_len as nat)
}

/// Calls `ipnet::Ipv4Net::hosts` and collects the addresses. As `ipnet`
/// documents it, these run from the network to the broadcast address,
/// without either of them when the prefix length is below 31.
#[verifier::external_body]
pub(crate) fn ipnet_hosts(addr: u32, prefix_len: u8) -> (r: Vec<u32>)
    requires
        prefix_len <= 32,
    ensures
        r@ == host_range(addr as nat, prefix_len as nat),
{
    let net = ipnet::Ipv4Net::new_assert(addr.into(), prefix_len);
    net.hosts().map(u32::from).collect()
}

/// Facts on block sizes: a block is a power of two between 1 and 2^32 and
/// the address space is a whole number of blocks.
pub proof fn lemma_block_size(prefix_len: nat)
    requires
        prefix_len <= 32,
    ensures
        1 <= block_size(prefix_len) <= 0x1_0000_0000,
        block_size(prefix_len) * pow2(prefix_len) == 0x1_0000_0000,
        prefix_len < 31 ==> block_size(prefix_len) >= 4,
        prefix_len == 31 ==> block_size(prefix_len) == 2,
        prefix_len == 32 ==> block_size(prefix_len) == 1,
{
    lemma2_to64();
    lemma_pow2_adds((32 - prefix_len) as nat, prefix_len);
    lemma_pow2_pos((32 - prefix_len) as nat);
    lemma_pow2_pos(prefix_len);
    if prefix_len > 0 {
        lemma_pow2_strictly_increases((32 - prefix_len) as nat, 32);
    }
    if prefix_len < 30 {
        lemma_pow2_strictly_increases(2, (32 - prefix_len) as nat);
    }
}

/// The network address, broadcast address and host range of a network lie
/// within the IPv4 address space, in that order.
pub proof fn lemma_network_bounds(addr: u32, prefix_len: u8)
    requires
        prefix_len <= 32,
    ensures
        network_of(addr as nat, prefix_len as nat) <= addr,
        network_of(addr as nat, prefix_len as nat) % block_size(prefix_len as nat) == 0,
        addr <= broadcast_of(addr as nat, prefix_len as nat) < 0x1_0000_0000,
        network_of(addr as nat, prefix_len as nat) <= first_host(addr as nat, prefix_len as nat),
        first_host(addr as nat, prefix_len as nat) <= last_host(addr as nat, prefix_len as nat),
        last_host(addr as nat, prefix_len as nat) <= broadcast_of(addr as nat, prefix_len as nat),
{
    let p = prefix_len as nat;
    let b = block_size(p);
    let a = addr as nat;
    lemma_block_size(p);
    let q = a / b;
    let r = a % b;
    assert(a == b * q + r && 0 <= r < b) by (nonlinear_arith)
        requires b >= 1, q == a / b, r == a % b;
    assert(network_of(a, p) == b * q);
    assert((b * q) % b == 0) by (nonlinear_arith)
        requires b >= 1;
    assert(q < pow2(p)) by (nonlinear_arith)
        requires a == b * q + r, 0 <= r, a < 0x1_0000_0000, b * pow2(p) == 0x1_0000_0000, b >= 1;
    assert(b * q + b <= 0x1_0000_0000) by (nonlinear_arith)
        requires q < pow2(p), b * pow2(p) == 0x1_0000_0000, b >= 1;
}

/// The number of hosts of a network.
pub open spec fn host_count_of(prefix_len: nat) -> nat {
    if prefix_len < 31 { (block_size(prefix_len) - 2) as nat } else { block_size(prefix_len) }
}

/// The host range has `host_count_of` elements, each inside the network.
pub proof fn lemma_host_range(addr: u32, prefix_len: u8)
    requires
        prefix_len <= 32,
    ensures
        host_range(addr as nat, prefix_len as nat).len() == host_count_of(prefix_len as nat),
        forall|i: int| 0 <= i < host_range(addr as nat, prefix_len as nat).len() ==>
            #[trigger] host_range(addr as nat, prefix_len as nat)[i] as nat
                == first_host(addr as nat, prefix_len as nat) + i,
{
    lemma_network_bounds(addr, prefix_len);
    lemma_block_size(prefix_len as nat);
}

/// `block_size` as a machine integer.
fn block_size_exec(prefix_len: u8) -> (b: u64)
    requires
        prefix_len <= 32,
    ensures
        b as nat == block_size(prefix_len as nat),
{
    let k: u8 = 32 - prefix_len;
    let mut b: u64 = 1;
    let mut i: u8 = 0;
    proof {
        lemma2_to64();
    }
    while i < k
        invariant
            k == 32 - prefix_len,
            i <= k,
            b as nat == pow2(i as nat),
        decreases k - i,
    {
        proof {
            lemma_pow2_unfold((i + 1) as nat);
            if i > 0 {
                lemma_pow2_strictly_increases(i as nat, 32);
            }
            lemma2_to64();
        }
        b = b * 2;
        i = i + 1;
    }
    b
}

/// The network address of `net`: its address with the host bits cleared.
pub fn network_address(net: Ipv4Cidr) -> (r: u32)
    requires
        net.prefix_len <= 32,
    ensures
        r as nat == network_of(net.addr as nat, net.prefix_len as nat),
{
    let b = block_size_exec(net.prefix_len);
    proof {
        lemma_network_bounds(net.addr, net.prefix_len);
        lemma_block_size(net.prefix_len as nat);
    }
    let a: u64 = net.addr as u64;
    assert(a % b <= a) by (nonlinear_arith)
        requires b >= 1;
    let n: u64 = a - a % b;
    n as u32
}

/// `net` with its address truncated to the network address.
pub fn truncate(net: Ipv4Cidr) -> (r: Ipv4Cidr)
    requires
        net.prefix_len <= 32,
    ensures
        r.addr as nat == network_of(net.addr as nat, net.prefix_len as nat),
        r.prefix_len == net.prefix_len,
{
    Ipv4Cidr { addr: network_address(net), prefix_len: net.prefix_len }
}

/// The number of host addresses of `net`.
pub fn host_count(net: Ipv4Cidr) -> (r: u64)
    requires
        net.prefix_len <= 32,
    ensures
        r as nat == hosts_of(net).len(),
{
    proof {
        lemma_host_range(net.addr, net.prefix_len);
        lemma_block_size(net.prefix_len as nat);
    }
    let b = block_size_exec(net.prefix_len);
    if net.prefix_len < 31 { b - 2 } else { b }
}

/// The host addresses of `net`, in increasing order.
pub fn hosts(net: Ipv4Cidr) -> (r: Vec<u32>)
    requires
        net.prefix_len <= 32,
    ensures
        r@ == hosts_of(net),
{
    ipnet_hosts(net.addr, net.prefix_len)
}

/// Parses an IPv4 network in CIDR notation (`"a.b.c.d/len"`).
pub fn parse_cidr(s: &str) -> (r: Option<Ipv4Cidr>)
    ensures
        r == cidr_of(ipv4_net_from_str(s@)),
        r matches Some(n) ==> n.prefix_len <= 32,
{
    match ipnet_from_str(s) {
        Ok(v) => Some(Ipv4Cidr { addr: v.0, prefix_len: v.1 }),
        Err(_) => None,
    }
}

/// Dotted-quad text of an address.
pub open spec fn ipv4_text(ip: nat) -> Seq<char> {
    decimal(ip / 0x100_0000) + seq!['.'] + decimal((ip / 0x1_0000) % 0x100) + seq!['.']
        + decimal((ip / 0x100) % 0x100) + seq!['.'] + decimal(ip % 0x100)
}

/// CIDR text of a network: the dotted quad, a slash and the prefix length.
pub open spec fn cidr_text(net: Ipv4Cidr) -> Seq<char> {
    ipv4_text(net.addr as nat) + seq!['/'] + decimal(net.prefix_len as nat)
}

/// Appends the dotted-quad text of `ip`.
pub fn push_ipv4(out: &mut String, ip: u32)
    ensures
        final(out)@ == old(out)@ + ipv4_text(ip as nat),
{
    push_decimal(out, (ip / 0x100_0000) as u64);
    push_char(out, '.');
    push_decimal(out, ((ip / 0x1_0000) % 0x100) as u64);
    push_char(out, '.');
    push_decimal(out, ((ip / 0x100) % 0x100) as u64);
    push_char(out, '.');
    push_decimal(out, (ip % 0x100) as u64);
    proof {
        assert(out@ =~= old(out)@ + ipv4_text(ip as nat));
    }
}

/// Dotted-quad text of `ip`, e.g. `"192.168.1.1"`.
pub fn ipv4_string(ip: u32) -> (s: String)
    ensures
        s@ == ipv4_text(ip as nat),
{
    let mut s = String::new();
    push_ipv4(&mut s, ip);
    proof {
        assert(s@ =~= ipv4_text(ip as nat));
    }
    s
}

/// CIDR text of `net`, e.g. `"10.0.0.0/8"`.
pub fn cidr_string(net: Ipv4Cidr) -> (s: String)
    ensures
        s@ == cidr_text(net),
{
    let mut s = String::new();
    push_ipv4(&mut s, net.addr);
    push_char(&mut s, '/');
    push_decimal(&mut s, net.prefix_len as u64);
    proof {
        assert(s@ =~= cidr_text(net));
    }
    s
}

} // verus!
