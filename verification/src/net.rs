//! IP addresses and networks.

use vstd::arithmetic::power2;
use vstd::prelude::*;

use crate::bounds::{Duplicate, Key, Placement};

verus! {

/// An IP address.
#[derive(Clone, Copy, Debug, PartialEq, Eq, Structural)]
pub enum IpAddr {
    /// A 32-bit address.
    V4(u32),
    /// A 128-bit address.
    V6(u128),
}

impl IpAddr {
    /// The number of bits in an address of this family.
    pub open spec fn width(self) -> nat {
        match self {
            IpAddr::V4(_) => 32,
            IpAddr::V6(_) => 128,
        }
    }

    /// The address read as one big-endian number.
    pub open spec fn number(self) -> nat {
        match self {
            IpAddr::V4(bits) => bits as nat,
            IpAddr::V6(bits) => bits as nat,
        }
    }

    /// A 32-bit address from its four octets.
    pub fn v4(a: u8, b: u8, c: u8, d: u8) -> (addr: IpAddr)
        ensures
            addr == IpAddr::V4((a * 0x100_0000 + b * 0x1_0000 + c * 0x100 + d) as u32),
    {
        IpAddr::V4(a as u32 * 0x100_0000 + b as u32 * 0x1_0000 + c as u32 * 0x100 + d as u32)
    }
}

impl View for IpAddr {
    type V = IpAddr;

    open spec fn view(&self) -> IpAddr {
        *self
    }
}

impl Duplicate for IpAddr {
    fn duplicate(&self) -> (copy: Self) {
        *self
    }
}

impl Key for IpAddr {
    open spec fn precedes(a: IpAddr, b: IpAddr) -> bool {
        a.width() < b.width() || (a.width() == b.width() && a.number() < b.number())
    }

    proof fn precedes_irreflexive(a: IpAddr) {
    }

    proof fn precedes_transitive(a: IpAddr, b: IpAddr, c: IpAddr) {
    }

    proof fn precedes_total(a: IpAddr, b: IpAddr) {
    }

    fn place(&self, other: &Self) -> (placement: Placement) {
        match (*self, *other) {
            (IpAddr::V4(_), IpAddr::V6(_)) => Placement::Before,
            (IpAddr::V6(_), IpAddr::V4(_)) => Placement::After,
            (IpAddr::V4(a), IpAddr::V4(b)) => {
                if a < b {
                    Placement::Before
                } else if a == b {
                    Placement::Same
                } else {
                    Placement::After
                }
            },
            (IpAddr::V6(a), IpAddr::V6(b)) => {
                if a < b {
                    Placement::Before
                } else if a == b {
                    Placement::Same
                } else {
                    Placement::After
                }
            },
        }
    }
}

/// A network in CIDR form: an address and how many of its leading bits name the network.
///
/// Host bits are kept as given, and two networks are equal only when they agree on those too.
#[derive(Clone, Copy, Debug, PartialEq, Eq, Structural)]
pub struct IpNet {
    addr: IpAddr,
    prefix_len: u8,
}

impl IpNet {
    /// The prefix is never longer than the address.
    #[verifier::type_invariant]
    pub closed spec fn is_valid(self) -> bool {
        self.prefix_len as nat <= self.addr.width()
    }

    /// The address the network was declared with.
    pub closed spec fn spec_addr(self) -> IpAddr {
        self.addr
    }

    /// The number of leading bits that name the network.
    pub closed spec fn spec_prefix_len(self) -> u8 {
        self.prefix_len
    }

    /// Declare a network; `None` when the prefix is longer than the address.
    pub fn new(addr: IpAddr, prefix_len: u8) -> (net: Option<IpNet>)
        ensures
            net is Some <==> prefix_len as nat <= addr.width(),
            net matches Some(n) ==> n.spec_addr() == addr && n.spec_prefix_len() == prefix_len,
    {
        let width: u8 = match addr {
            IpAddr::V4(_) => 32,
            IpAddr::V6(_) => 128,
        };
        if prefix_len <= width {
            Some(IpNet { addr, prefix_len })
        } else {
            None
        }
    }

    /// `addr` lies in this network: same family, same leading `prefix_len` bits.
    pub open spec fn covers(self, addr: IpAddr) -> bool {
        prefix_covers(self.spec_addr(), self.spec_prefix_len(), addr)
    }

    /// Whether `addr` lies in this network.
    pub fn contains(&self, addr: &IpAddr) -> (inside: bool)
        ensures
            inside == self.covers(*addr),
    {
        proof {
            use_type_invariant(self);
        }
        match (self.addr, *addr) {
            (IpAddr::V4(net), IpAddr::V4(host)) => v4_net_contains(net, self.prefix_len, host),
            (IpAddr::V6(net), IpAddr::V6(host)) => v6_net_contains(net, self.prefix_len, host),
            _ => false,
        }
    }
}

/// Two addresses of one family agree on their leading `prefix_len` bits.
pub open spec fn prefix_covers(net: IpAddr, prefix_len: u8, addr: IpAddr) -> bool {
    &&& net.width() == addr.width()
    &&& net.number() / power2::pow2((net.width() - prefix_len) as nat) == addr.number() / power2::pow2(
        (net.width() - prefix_len) as nat,
    )
}

/// `ipnet::Ipv4Net::contains`, on the network `net/prefix_len`: the host address lies between the
/// network's first and last address, that is, agrees with it on the leading `prefix_len` bits.
#[verifier::external_body]
fn v4_net_contains(net: u32, prefix_len: u8, host: u32) -> (inside: bool)
    requires
        prefix_len <= 32,
    ensures
        inside == prefix_covers(IpAddr::V4(net), prefix_len, IpAddr::V4(host)),
{
    let host_net = ipnet::Ipv4Net::new_assert(host.into(), 32);
    ipnet::Ipv4Net::new_assert(net.into(), prefix_len).contains(&host_net)
}

/// `ipnet::Ipv6Net::contains`, on the network `net/prefix_len`: the host address lies between the
/// network's first and last address, that is, agrees with it on the leading `prefix_len` bits.
#[verifier::external_body]
fn v6_net_contains(net: u128, prefix_len: u8, host: u128) -> (inside: bool)
    requires
        prefix_len <= 128,
    ensures
        inside == prefix_covers(IpAddr::V6(net), prefix_len, IpAddr::V6(host)),
{
    let host_net = ipnet::Ipv6Net::new_assert(host.into(), 128);
    ipnet::Ipv6Net::new_assert(net.into(), prefix_len).contains(&host_net)
}

/// Addresses come family by family, the shorter ones first, and within a family as numbers.
pub proof fn addresses_are_ordered_as_numbers(a: u32, b: u32, c: u128, d: u128)
    ensures
        IpAddr::precedes(IpAddr::V4(a), IpAddr::V6(c)),
        !IpAddr::precedes(IpAddr::V6(c), IpAddr::V4(a)),
        IpAddr::precedes(IpAddr::V4(a), IpAddr::V4(b)) <==> b - a > 0,
        IpAddr::precedes(IpAddr::V6(c), IpAddr::V6(d)) <==> d - c > 0,
{
}

/// A network is a block of consecutive addresses of one family: the declared one among them, as many
/// as there are ways to fill the bits after the prefix, and beginning at a multiple of that number.
pub proof fn networks_are_blocks_of_addresses(net: IpAddr, prefix_len: u8, addr: IpAddr) -> (first: nat)
    requires
        prefix_len as nat <= net.width(),
    ensures
        ({
            let size = power2::pow2((net.width() - prefix_len) as nat);
            &&& first % size == 0
            &&& first <= net.number() < first + size
            &&& prefix_covers(net, prefix_len, addr) <==> net.width() == addr.width() && first <= addr.number()
                < first + size
        }),
        prefix_covers(net, prefix_len, net),
{
    let k = (net.width() - prefix_len) as nat;
    let size = power2::pow2(k) as int;
    power2::lemma_pow2_pos(k);
    let n = net.number() as int;
    let a = addr.number() as int;
    let q = n / size;
    let first = size * q;
    vstd::arithmetic::div_mod::lemma_fundamental_div_mod(n, size);
    vstd::arithmetic::div_mod::lemma_mod_bound(n, size);
    vstd::arithmetic::div_mod::lemma_fundamental_div_mod(a, size);
    vstd::arithmetic::div_mod::lemma_mod_bound(a, size);
    vstd::arithmetic::div_mod::lemma_div_pos_is_pos(n, size);
    assert(first >= 0) by (nonlinear_arith)
        requires
            first == size * q,
            size > 0,
            q >= 0,
    ;
    assert(size * q == q * size) by (nonlinear_arith);
    vstd::arithmetic::div_mod::lemma_fundamental_div_mod_converse(first, size, q, 0);
    if first <= a < first + size {
        vstd::arithmetic::div_mod::lemma_fundamental_div_mod_converse(a, size, q, a - first);
    }
    first as nat
}

/// Without a prefix a network holds its whole family, and with a full one only the address itself.
pub proof fn prefixes_range_from_everything_to_one_address(net: u32, addr: u32, net6: u128, addr6: u128)
    ensures
        prefix_covers(IpAddr::V4(net), 0, IpAddr::V4(addr)),
        prefix_covers(IpAddr::V6(net6), 0, IpAddr::V6(addr6)),
        prefix_covers(IpAddr::V4(net), 32, IpAddr::V4(addr)) <==> net == addr,
        prefix_covers(IpAddr::V6(net6), 128, IpAddr::V6(addr6)) <==> net6 == addr6,
        !prefix_covers(IpAddr::V4(net), 0, IpAddr::V6(addr6)),
        !prefix_covers(IpAddr::V6(net6), 0, IpAddr::V4(addr)),
{
    power2::lemma2_to64();
    power2::lemma_pow2_adds(64, 64);
    assert(power2::pow2(128) == 0x1_0000_0000_0000_0000 * 0x1_0000_0000_0000_0000) by {
        assert(power2::pow2(64) == 0x1_0000_0000_0000_0000);
    }
    assert(0x1_0000_0000_0000_0000 * 0x1_0000_0000_0000_0000 == u128::MAX + 1);
    let a = networks_are_blocks_of_addresses(IpAddr::V4(net), 0, IpAddr::V4(addr));
    let b = networks_are_blocks_of_addresses(IpAddr::V6(net6), 0, IpAddr::V6(addr6));
    let c = networks_are_blocks_of_addresses(IpAddr::V4(net), 32, IpAddr::V4(addr));
    let d = networks_are_blocks_of_addresses(IpAddr::V6(net6), 128, IpAddr::V6(addr6));
    let wide = power2::pow2(32) as int;
    let wider = power2::pow2(128) as int;
    vstd::arithmetic::div_mod::lemma_small_mod(0, power2::pow2(32));
    if a > 0 {
        vstd::arithmetic::div_mod::lemma_small_mod(a, power2::pow2(32));
    }
    if b > 0 {
        vstd::arithmetic::div_mod::lemma_small_mod(b, power2::pow2(128));
    }
}

/// A network covers what agrees with the address it was declared with on as many leading bits as it
/// was declared with.
pub proof fn networks_cover_what_their_prefix_covers(net: IpNet, addr: IpAddr)
    ensures
        net.covers(addr) <==> prefix_covers(net.spec_addr(), net.spec_prefix_len(), addr),
        net.covers(addr) ==> net.spec_addr().width() == addr.width(),
        net.covers(net.spec_addr()),
{
}

} // verus!
