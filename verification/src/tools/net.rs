//! Addresses of the internet and which of them must not be reached.

use vstd::prelude::*;

verus! {

/// An address.
#[derive(Debug, Clone, Copy, PartialEq, Eq, Structural)]
pub enum IpAddress {
    V4(u32),
    V6(u128),
}

/// The addresses from the first to the last of a network.
#[derive(Debug, Clone, Copy, PartialEq, Eq, Structural)]
pub struct Network {
    pub first: IpAddress,
    pub last: IpAddress,
}

/// The addresses that are private, loopback or link-local.
pub open spec fn is_private(ip: IpAddress) -> bool {
    match ip {
        IpAddress::V4(a) => {
            // 10.0.0.0/8, 172.16.0.0/12, 192.168.0.0/16, 127.0.0.0/8, 169.254.0.0/16
            ||| 0x0a00_0000 <= a <= 0x0aff_ffff
            ||| 0xac10_0000 <= a <= 0xac1f_ffff
            ||| 0xc0a8_0000 <= a <= 0xc0a8_ffff
            ||| 0x7f00_0000 <= a <= 0x7fff_ffff
            ||| 0xa9fe_0000 <= a <= 0xa9fe_ffff
        },
        IpAddress::V6(a) => {
            // ::1, fc00::/7, fe80::/10
            ||| a == 1
            ||| 0xfc00_0000_0000_0000_0000_0000_0000_0000 <= a
                <= 0xfdff_ffff_ffff_ffff_ffff_ffff_ffff_ffff
            ||| 0xfe80_0000_0000_0000_0000_0000_0000_0000 <= a
                <= 0xfebf_ffff_ffff_ffff_ffff_ffff_ffff_ffff
        },
    }
}

/// Whether an address is private, loopback or link-local.
pub fn is_private_ip(ip: &IpAddress) -> (r: bool)
    ensures
        r == is_private(*ip),
{
    match ip {
        IpAddress::V4(a) => {
            let a: u32 = *a;
            (0x0a00_0000 <= a && a <= 0x0aff_ffff) || (0xac10_0000 <= a && a <= 0xac1f_ffff) || (
            0xc0a8_0000 <= a && a <= 0xc0a8_ffff) || (0x7f00_0000 <= a && a <= 0x7fff_ffff) || (
            0xa9fe_0000 <= a && a <= 0xa9fe_ffff)
        },
        IpAddress::V6(a) => {
            let a: u128 = *a;
            a == 1 || (0xfc00_0000_0000_0000_0000_0000_0000_0000 <= a && a
                <= 0xfdff_ffff_ffff_ffff_ffff_ffff_ffff_ffff) || (
            0xfe80_0000_0000_0000_0000_0000_0000_0000 <= a && a
                <= 0xfebf_ffff_ffff_ffff_ffff_ffff_ffff_ffff)
        },
    }
}

/// Whether an address lies in a network: both are of the same kind, and it is neither before the
/// first nor after the last address.
pub open spec fn in_network(net: Network, ip: IpAddress) -> bool {
    match (net.first, net.last, ip) {
        (IpAddress::V4(first), IpAddress::V4(last), IpAddress::V4(a)) => first <= a <= last,
        (IpAddress::V6(first), IpAddress::V6(last), IpAddress::V6(a)) => first <= a <= last,
        _ => false,
    }
}

/// Whether an address lies in a network.
pub fn contains(net: &Network, ip: &IpAddress) -> (r: bool)
    ensures
        r == in_network(*net, *ip),
{
    match (net.first, net.last, *ip) {
        (IpAddress::V4(first), IpAddress::V4(last), IpAddress::V4(a)) => first <= a && a <= last,
        (IpAddress::V6(first), IpAddress::V6(last), IpAddress::V6(a)) => first <= a && a <= last,
        _ => false,
    }
}

/// The network that a text such as `10.0.0.0/8` spells, as `ipnet` reads it; nothing where it
/// spells none.
pub uninterp spec fn ip_network(s: Seq<char>) -> Option<Network>;

/// `ipnet::IpNet` read from a text, with its first and last address after `network` and
/// `broadcast`. They depend on the text alone.
#[verifier::external_body]
pub(crate) fn parse_network(s: &str) -> (r: Option<Network>)
    ensures
        r == ip_network(s@),
{
    match s.parse::<ipnet::IpNet>() {
        Ok(ipnet::IpNet::V4(n)) => Some(
            Network {
                first: IpAddress::V4(n.network().into()),
                last: IpAddress::V4(n.broadcast().into()),
            },
        ),
        Ok(ipnet::IpNet::V6(n)) => Some(
            Network {
                first: IpAddress::V6(n.network().into()),
                last: IpAddress::V6(n.broadcast().into()),
            },
        ),
        Err(_) => None,
    }
}

/// The networks that the texts spell, in order, without the texts that spell none.
pub open spec fn networks_of(texts: Seq<Seq<char>>) -> Seq<Network>
    decreases texts.len(),
{
    if texts.len() == 0 {
        Seq::empty()
    } else {
        match ip_network(texts.last()) {
            Some(n) => networks_of(texts.drop_last()).push(n),
            None => networks_of(texts.drop_last()),
        }
    }
}

/// The networks that the texts spell.
pub fn read_networks(texts: &Vec<String>) -> (r: Vec<Network>)
    ensures
        r@ == networks_of(crate::text::views(texts@)),
{
    let ghost all = crate::text::views(texts@);
    let mut out: Vec<Network> = Vec::new();
    let mut i: usize = 0;
    while i < texts.len()
        invariant
            i <= texts@.len(),
            all == crate::text::views(texts@),
            out@ == networks_of(all.take(i as int)),
        decreases texts@.len() - i,
    {
        assert(all.take(i + 1).drop_last() =~= all.take(i as int));
        assert(all.take(i + 1).last() == texts@[i as int]@);
        match parse_network(texts[i].as_str()) {
            Some(n) => out.push(n),
            None => {},
        }
        i += 1;
    }
    assert(all.take(i as int) =~= all);
    out
}

/// Whether an address lies in one of the networks.
pub open spec fn allowed(ip: IpAddress, allowlist: Seq<Network>) -> bool {
    exists|i: int| 0 <= i < allowlist.len() && in_network(#[trigger] allowlist[i], ip)
}

/// Whether an address lies in one of the networks.
pub fn is_ssrf_allowed(ip: &IpAddress, allowlist: &Vec<Network>) -> (r: bool)
    ensures
        r == allowed(*ip, allowlist@),
{
    let mut i: usize = 0;
    while i < allowlist.len()
        invariant
            i <= allowlist@.len(),
            forall|k: int| 0 <= k < i ==> !in_network(#[trigger] allowlist@[k], *ip),
        decreases allowlist@.len() - i,
    {
        if contains(&allowlist[i], ip) {
            return true;
        }
        i += 1;
    }
    false
}

/// Whether an address must not be reached: it is private and in none of the networks.
pub open spec fn blocked(ip: IpAddress, allowlist: Seq<Network>) -> bool {
    is_private(ip) && !allowed(ip, allowlist)
}

/// Whether an address must not be reached.
pub fn is_blocked(ip: &IpAddress, allowlist: &Vec<Network>) -> (r: bool)
    ensures
        r == blocked(*ip, allowlist@),
{
    is_private_ip(ip) && !is_ssrf_allowed(ip, allowlist)
}

} // verus!
