//! Expansion of a configured address (a host or a CIDR block) into the
//! concrete addresses to probe.

use vstd::prelude::*;
use vstd::arithmetic::power2::{pow2, lemma_pow2_unfold, lemma_pow2_strictly_increases, lemma_pow2_adds, lemma2_to64};
use vstd::arithmetic::div_mod::{lemma_fundamental_div_mod, lemma_mod_pos_bound, lemma_div_pos_is_pos};
use crate::text::{dec, push_decimal};

verus! {

/// A parsed CIDR block: an address (host bits may be set) and a prefix length.
#[derive(Debug, Clone, Copy, PartialEq, Eq)]
pub enum NetBlock {
    V4 { addr: u32, prefix_len: u8 },
    V6 { addr: u128, prefix_len: u8 },
}

impl NetBlock {
    pub open spec fn wf(self) -> bool {
        match self {
            NetBlock::V4 { prefix_len, .. } => prefix_len <= 32,
            NetBlock::V6 { prefix_len, .. } => prefix_len <= 128,
        }
    }
}

/// What ipnet's CIDR parser makes of a text.
pub uninterp spec fn parsed_net(s: Seq<char>) -> Option<NetBlock>;

/// The standard text form of an IPv6 address.
pub uninterp spec fn ipv6_text(a: u128) -> Seq<char>;

/// Relies on ipnet's `FromStr for IpNet`: "addr/len" text, prefix at most 32
/// for IPv4 and 128 for IPv6; anything else is an error.
#[verifier::external_body]
fn parse_net(s: &str) -> (r: Option<NetBlock>)
    ensures
        r == parsed_net(s@),
        r matches Some(b) ==> b.wf(),
{
    match s.parse::<ipnet::IpNet>() {
        Ok(ipnet::IpNet::V4(n)) => Some(NetBlock::V4 { addr: u32::from(n.addr()), prefix_len: n.prefix_len() }),
        Ok(ipnet::IpNet::V6(n)) => Some(NetBlock::V6 { addr: u128::from(n.addr()), prefix_len: n.prefix_len() }),
        Err(_) => None,
    }
}

/// Relies on ipnet's `Ipv6Net::hosts`: every address of the block, from
/// its network address up to its last address, in order.
#[verifier::external_body]
fn ipv6_hosts(addr: u128, prefix_len: u8) -> (r: Vec<u128>)
    requires
        prefix_len <= 128,
    ensures
        r@.map_values(|a: u128| a as nat) == v6_hosts(addr as nat, prefix_len as nat),
{
    ipnet::Ipv6Net::new_assert(addr.into(), prefix_len).hosts().map(u128::from).collect()
}

/// Relies on std's `Display for Ipv6Addr` (reached through ipnet's
/// single-address block) for the text of one address.
#[verifier::external_body]
fn ipv6_string(a: u128) -> (r: String)
    ensures
        r@ == ipv6_text(a),
{
    ipnet::Ipv6Net::new_assert(a.into(), 128).addr().to_string()
}

/// Number of addresses in an IPv6 block with the given prefix length.
pub open spec fn v6_block_size(prefix_len: nat) -> nat {
    pow2((128 - prefix_len) as nat)
}

/// The hosts of an IPv6 block: every address of the block, from the network
/// address up.
pub open spec fn v6_hosts(addr: nat, prefix_len: nat) -> Seq<nat> {
    let size = v6_block_size(prefix_len);
    let net = (addr - addr % size) as nat;
    Seq::new(size, |i: int| (net + i) as nat)
}

/// Number of addresses in an IPv4 block with the given prefix length.
pub open spec fn v4_block_size(prefix_len: nat) -> nat {
    pow2((32 - prefix_len) as nat)
}

/// The network (lowest) address of the IPv4 block holding `addr`.
pub open spec fn v4_network(addr: nat, prefix_len: nat) -> nat {
    (addr - addr % v4_block_size(prefix_len)) as nat
}

/// The usable hosts of an IPv4 block: all addresses but the network and
/// broadcast ones, except for /31 and /32 blocks, whose addresses are all hosts.
pub open spec fn v4_hosts(addr: nat, prefix_len: nat) -> Seq<nat> {
    let net = v4_network(addr, prefix_len);
    let size = v4_block_size(prefix_len);
    if prefix_len < 31 {
        Seq::new((size - 2) as nat, |i: int| (net + 1 + i) as nat)
    } else {
        Seq::new(size, |i: int| (net + i) as nat)
    }
}

/// The hosts of an IPv4 block below /31 are exactly the addresses strictly
/// between its network and broadcast addresses; a /31 or /32 block has every
/// address of the block as a host.
pub proof fn lemma_v4_hosts_exact(addr: nat, prefix_len: nat, a: nat)
    requires
        prefix_len <= 32,
    ensures
        prefix_len < 31 ==> (v4_hosts(addr, prefix_len).contains(a) <==> v4_network(addr, prefix_len) < a
            < v4_network(addr, prefix_len) + v4_block_size(prefix_len) - 1),
        prefix_len >= 31 ==> (v4_hosts(addr, prefix_len).contains(a) <==> v4_network(addr, prefix_len) <= a
            < v4_network(addr, prefix_len) + v4_block_size(prefix_len)),
{
    let net = v4_network(addr, prefix_len);
    let size = v4_block_size(prefix_len);
    let h = v4_hosts(addr, prefix_len);
    if prefix_len < 31 {
        lemma_pow2_strictly_increases(1, (32 - prefix_len) as nat);
        lemma2_to64();
        if net < a < net + size - 1 {
            assert(h[a - net - 1] == a);
        }
    } else {
        if net <= a < net + size {
            assert(h[a - net] == a);
        }
    }
}

/// Dotted-decimal text of an IPv4 address.
pub open spec fn ipv4_text(a: nat) -> Seq<char> {
    dec(a / 0x100_0000) + "."@ + dec((a / 0x1_0000) % 0x100) + "."@ + dec((a / 0x100) % 0x100) + "."@
        + dec(a % 0x100)
}

/// The addresses that a configured address stands for: the hosts of a CIDR
/// block, or the text itself.
pub open spec fn expansion(raw: Seq<char>) -> Seq<Seq<char>> {
    match parsed_net(raw) {
        Some(NetBlock::V4 { addr, prefix_len }) =>
            v4_hosts(addr as nat, prefix_len as nat).map_values(|a: nat| ipv4_text(a)),
        Some(NetBlock::V6 { addr, prefix_len }) =>
            v6_hosts(addr as nat, prefix_len as nat).map_values(|a: nat| ipv6_text(a as u128)),
        None => seq![raw],
    }
}

fn ipv4_string(a: u64) -> (r: String)
    requires
        a < 0x1_0000_0000,
    ensures
        r@ == ipv4_text(a as nat),
{
    let mut s = String::new();
    push_decimal(&mut s, a / 0x100_0000);
    s.append(".");
    push_decimal(&mut s, (a / 0x1_0000) % 0x100);
    s.append(".");
    push_decimal(&mut s, (a / 0x100) % 0x100);
    s.append(".");
    push_decimal(&mut s, a % 0x100);
    assert(s@ =~= ipv4_text(a as nat));
    s
}

fn v4_size(prefix_len: u8) -> (r: u64)
    requires
        prefix_len <= 32,
    ensures
        r == v4_block_size(prefix_len as nat),
        0 < r <= 0x1_0000_0000,
        prefix_len < 31 ==> r >= 4,
        r * pow2(prefix_len as nat) == 0x1_0000_0000,
{
    let k: u8 = 32 - prefix_len;
    let mut size: u64 = 1;
    let mut i: u8 = 0;
    proof {
        lemma2_to64();
    }
    while i < k
        invariant
            i <= k <= 32,
            size == pow2(i as nat),
            0 < size <= 0x1_0000_0000,
        decreases k - i,
    {
        proof {
            lemma_pow2_unfold((i + 1) as nat);
            lemma2_to64();
            if i + 1 < 32 {
                lemma_pow2_strictly_increases((i + 1) as nat, 32);
            }
        }
        size = size * 2;
        i = i + 1;
    }
    proof {
        if k < 32 {
            lemma_pow2_strictly_increases(k as nat, 32);
        }
        if k >= 2 {
            if k > 2 {
                lemma_pow2_strictly_increases(2, k as nat);
            }
        }
        lemma_pow2_adds(k as nat, prefix_len as nat);
    }
    size
}

proof fn lemma_block_fits(a: int, size: int, m: int)
    requires
        0 <= a < size * m,
        size > 0,
        m > 0,
    ensures
        0 <= a % size < size,
        a % size <= a,
        (a - a % size) + size <= size * m,
{
    lemma_fundamental_div_mod(a, size);
    lemma_mod_pos_bound(a, size);
    lemma_div_pos_is_pos(a, size);
    let q = a / size;
    assert(q < m) by (nonlinear_arith)
        requires
            size * q <= a,
            a < size * m,
            size > 0,
    ;
    assert(size * q + size <= size * m) by (nonlinear_arith)
        requires
            q + 1 <= m,
            size > 0,
    ;
}

fn push_v4_hosts(out: &mut Vec<String>, addr: u32, prefix_len: u8)
    requires
        prefix_len <= 32,
    ensures
        final(out)@.map_values(|s: String| s@) == old(out)@.map_values(|s: String| s@)
            + v4_hosts(addr as nat, prefix_len as nat).map_values(|a: nat| ipv4_text(a)),
{
    let size = v4_size(prefix_len);
    let a = addr as u64;
    proof {
        vstd::arithmetic::power2::lemma_pow2_pos(prefix_len as nat);
        lemma_block_fits(a as int, size as int, pow2(prefix_len as nat) as int);
    }
    let net = a - a % size;
    let (first, count) = if prefix_len < 31 { (net + 1, size - 2) } else { (net, size) };
    let ghost hosts = v4_hosts(addr as nat, prefix_len as nat);
    let ghost start = out@.map_values(|s: String| s@);
    let mut j: u64 = 0;
    while j < count
        invariant
            j <= count,
            hosts.len() == count,
            forall|i: int| 0 <= i < count ==> hosts[i] == first + i,
            first + count <= 0x1_0000_0000,
            out@.map_values(|s: String| s@) == start + hosts.subrange(0, j as int).map_values(|x: nat| ipv4_text(x)),
        decreases count - j,
    {
        let t = ipv4_string(first + j);
        let ghost before = out@;
        out.push(t);
        proof {
            assert(out@ == before.push(t));
            assert(before.push(t).map_values(|s: String| s@) =~= before.map_values(|s: String| s@).push(t@));
            assert(hosts.subrange(0, j + 1) =~= hosts.subrange(0, j as int).push(hosts[j as int]));
            assert(hosts.subrange(0, j + 1).map_values(|x: nat| ipv4_text(x)) =~= hosts.subrange(0, j as int).map_values(|x: nat| ipv4_text(x)).push(ipv4_text(hosts[j as int])));
        }
        j = j + 1;
        proof {
            assert(out@.map_values(|s: String| s@) =~= start + hosts.subrange(0, j as int).map_values(|x: nat| ipv4_text(x)));
        }
    }
    proof {
        assert(hosts.subrange(0, count as int) =~= hosts);
    }
}

/// The usable hosts of the IPv4 block `addr/prefix_len`, as dotted-decimal text.
pub fn v4_host_addresses(addr: u32, prefix_len: u8) -> (r: Vec<String>)
    requires
        prefix_len <= 32,
    ensures
        r@.map_values(|s: String| s@) == v4_hosts(addr as nat, prefix_len as nat).map_values(|a: nat| ipv4_text(a)),
{
    let mut out: Vec<String> = Vec::new();
    push_v4_hosts(&mut out, addr, prefix_len);
    proof {
        let h = v4_hosts(addr as nat, prefix_len as nat).map_values(|a: nat| ipv4_text(a));
        assert(out@.map_values(|s: String| s@) =~= Seq::<Seq<char>>::empty() + h);
    }
    out
}

/// The hosts of the IPv6 block `addr/prefix_len`, as text.
pub fn v6_host_addresses(addr: u128, prefix_len: u8) -> (r: Vec<String>)
    requires
        prefix_len <= 128,
    ensures
        r@.map_values(|s: String| s@) == v6_hosts(addr as nat, prefix_len as nat).map_values(|a: nat| ipv6_text(a as u128)),
{
    let hosts = ipv6_hosts(addr, prefix_len);
    let ghost h = v6_hosts(addr as nat, prefix_len as nat);
    let mut out: Vec<String> = Vec::new();
    let mut j: usize = 0;
    proof {
        assert(out@.map_values(|s: String| s@) =~= h.take(0).map_values(|a: nat| ipv6_text(a as u128)));
    }
    while j < hosts.len()
        invariant
            hosts@.map_values(|a: u128| a as nat) == h,
            j <= hosts@.len(),
            out@.map_values(|s: String| s@) == h.take(j as int).map_values(|a: nat| ipv6_text(a as u128)),
        decreases hosts@.len() - j,
    {
        let t = ipv6_string(hosts[j]);
        let ghost before = out@;
        out.push(t);
        proof {
            assert(h[j as int] == hosts@[j as int] as nat);
            assert(h.take(j + 1) =~= h.take(j as int).push(h[j as int]));
            assert(out@.map_values(|s: String| s@) =~= before.map_values(|s: String| s@).push(t@));
            assert(out@.map_values(|s: String| s@) =~= h.take(j + 1).map_values(|a: nat| ipv6_text(a as u128)));
        }
        j = j + 1;
    }
    proof {
        assert(h.take(j as int) =~= h);
    }
    out
}

/// The concrete addresses to probe for a configured address: every usable
/// host of a CIDR block (network and broadcast excluded), or, for text that
/// is not a CIDR block, that text alone.
pub fn expand_address(raw: &str) -> (r: Vec<String>)
    ensures
        r@.map_values(|s: String| s@) == expansion(raw@),
        parsed_net(raw@) is None ==> r@.len() == 1 && r@[0]@ == raw@,
{
    let mut out: Vec<String> = Vec::new();
    proof {
        assert(out@.map_values(|s: String| s@) =~= Seq::<Seq<char>>::empty());
    }
    match parse_net(raw) {
        Some(NetBlock::V4 { addr, prefix_len }) => {
            v4_host_addresses(addr, prefix_len)
        },
        Some(NetBlock::V6 { addr, prefix_len }) => v6_host_addresses(addr, prefix_len),
        None => {
            out.push(String::from_str(raw));
            proof {
                assert(out@.map_values(|s: String| s@) =~= seq![raw@]);
            }
            out
        },
    }
}

} // verus!
