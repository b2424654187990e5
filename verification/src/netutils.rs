//! Plain-value model of IP addresses and locally attached networks.
//!
//! An address is held as its numeric value (32 bits for v4, 128 bits for
//! v6), a network as an interface address plus a prefix length computed
//! from a netmask. Containment is first-`prefix_len`-bits equality, which
//! the logic here states and proves directly.

use vstd::prelude::*;
use vstd::arithmetic::power2::{
    lemma2_to64, lemma2_to64_rest, lemma_pow2_adds, lemma_pow2_pos, lemma_pow2_strictly_increases, lemma_pow2_unfold,
    pow2,
};
use crate::error::Error;

verus! {

/// An IP address, v4 or v6, as a plain numeric value.
#[derive(Clone, Copy, Debug, PartialEq, Eq, Structural)]
pub enum IpAddress {
    V4(u32),
    V6(u128),
}

impl IpAddress {
    /// Builds a v4 address from its four dotted-quad octets.
    pub fn v4_from_octets(a: u8, b: u8, c: u8, d: u8) -> (r: IpAddress)
        ensures
            r == IpAddress::V4(
                ((a as u32) * 0x1000000 + (b as u32) * 0x10000 + (c as u32) * 0x100
                    + (d as u32)) as u32,
            ),
    {
        IpAddress::V4(
            (a as u32) * 0x1000000 + (b as u32) * 0x10000 + (c as u32) * 0x100 + (d as u32),
        )
    }

    /// Builds a v6 address from its eight 16-bit segments.
    pub fn v6_from_segments(s: [u16; 8]) -> (r: IpAddress)
        ensures
            r == IpAddress::V6(spec_v6_value(s@)),
    {
        let mut v: u128 = 0;
        let mut i: usize = 0;
        proof {
            lemma2_to64();
        }
        while i < 8
            invariant
                i <= 8,
                v == spec_v6_value(s@.take(i as int)),
                v < pow2((16 * i) as nat),
            decreases 8 - i,
        {
            proof {
                lemma_pow2_le((16 * i) as nat, 112);
                assert(pow2(112) * 0x10000 == pow2(128)) by {
                    lemma_pow2_adds(112, 16);
                    lemma_pow2_values();
                }
                assert(v * 0x10000 + (s@[i as int] as u128) < pow2(128)) by {
                    assert(v <= pow2(112) - 1);
                    assert(v * 0x10000 <= (pow2(112) - 1) * 0x10000) by (nonlinear_arith)
                        requires v <= pow2(112) - 1;
                }
                assert(pow2(128) - 1 == u128::MAX) by {
                    lemma_pow2_128();
                }
            }
            v = v * 0x10000 + (s[i] as u128);
            i = i + 1;
            proof {
                assert(s@.take(i as int).drop_last() =~= s@.take(i - 1));
                assert(v < pow2((16 * i) as nat)) by {
                    assert(pow2((16 * (i - 1)) as nat) * 0x10000 == pow2((16 * i) as nat)) by {
                        lemma_pow2_adds((16 * (i - 1)) as nat, 16);
                        lemma_pow2_values();
                    }
                    assert((pow2((16 * (i - 1)) as nat) - 1) * 0x10000 + 0xFFFF < pow2(
                        (16 * (i - 1)) as nat,
                    ) * 0x10000) by (nonlinear_arith)
                        requires pow2((16 * (i - 1)) as nat) >= 1;
                }
            }
        }
        proof {
            assert(s@.take(8) =~= s@);
        }
        IpAddress::V6(v)
    }

}

/// The numeric value of a v6 address given by its leading segments.
pub open spec fn spec_v6_value(segs: Seq<u16>) -> u128
    decreases segs.len(),
{
    if segs.len() == 0 {
        0
    } else {
        (spec_v6_value(segs.drop_last()) * 0x10000 + segs.last()) as u128
    }
}

proof fn lemma_pow2_le(a: nat, b: nat)
    requires
        a <= b,
    ensures
        pow2(a) <= pow2(b),
{
    if a < b {
        lemma_pow2_strictly_increases(a, b);
    }
}

proof fn lemma_pow2_values()
    ensures
        pow2(16) == 0x10000,
        pow2(32) == 0x1_0000_0000,
        pow2(112) == 0x1_0000_0000_0000_0000_0000_0000_0000,
        pow2(126) == 0x4000_0000_0000_0000_0000_0000_0000_0000,
        pow2(128) == 0x1_0000_0000_0000_0000_0000_0000_0000_0000,
{
    lemma2_to64();
    lemma2_to64_rest();
    lemma_pow2_adds(64, 48);
    lemma_pow2_adds(64, 62);
    lemma_pow2_adds(64, 64);
}

proof fn lemma_pow2_128()
    ensures
        pow2(128) == 0x1_0000_0000_0000_0000_0000_0000_0000_0000,
{
    lemma_pow2_values();
}

proof fn lemma_pow2_32()
    ensures
        pow2(32) == 0x1_0000_0000,
{
    lemma_pow2_values();
}

/// How many binary ones the value `n` holds.
pub open spec fn spec_popcount(n: nat) -> nat
    decreases n,
{
    if n == 0 {
        0
    } else {
        n % 2 + spec_popcount(n / 2)
    }
}

proof fn lemma_popcount_bound(n: nat, k: nat)
    requires
        n < pow2(k),
    ensures
        spec_popcount(n) <= k,
    decreases k,
{
    lemma2_to64();
    if k == 0 {
    } else if n > 0 {
        lemma_pow2_unfold(k);
        lemma_popcount_bound(n / 2, (k - 1) as nat);
    }
}

/// Counts the binary ones of a 128-bit value.
fn popcount_u128(m: u128) -> (r: u8)
    ensures
        r == spec_popcount(m as nat),
        r <= 128,
{
    proof {
        lemma_pow2_128();
        lemma_popcount_bound(m as nat, 128);
    }
    let mut n: u128 = m;
    let mut r: u8 = 0;
    while n > 0
        invariant
            r + spec_popcount(n as nat) == spec_popcount(m as nat),
            spec_popcount(m as nat) <= 128,
        decreases n,
    {
        r = r + (n % 2) as u8;
        n = n / 2;
    }
    r
}

/// Counts the binary ones of a 32-bit value.
fn popcount_u32(m: u32) -> (r: u8)
    ensures
        r == spec_popcount(m as nat),
        r <= 32,
{
    proof {
        lemma_pow2_32();
        lemma_popcount_bound(m as nat, 32);
    }
    let mut n: u32 = m;
    let mut r: u8 = 0;
    while n > 0
        invariant
            r + spec_popcount(n as nat) == spec_popcount(m as nat),
            spec_popcount(m as nat) <= 32,
        decreases n,
    {
        r = r + (n % 2) as u8;
        n = n / 2;
    }
    r
}

/// A network that a local interface is attached to: the interface's own
/// address and the prefix length of the attached network.
#[derive(Clone, Copy, Debug, PartialEq, Eq, Structural)]
pub struct HostNet {
    pub ip: IpAddress,
    pub prefix_len: u8,
}

impl HostNet {
    /// A prefix length that does not exceed the address width.
    pub open spec fn wf(self) -> bool {
        match self.ip {
            IpAddress::V4(_) => self.prefix_len <= 32,
            IpAddress::V6(_) => self.prefix_len <= 128,
        }
    }

    /// The first `prefix_len` bits of `other` equal those of the
    /// network's own address, and the families agree.
    pub open spec fn spec_contains(self, other: IpAddress) -> bool {
        match (self.ip, other) {
            (IpAddress::V4(a), IpAddress::V4(b)) => {
                a as nat / pow2((32 - self.prefix_len) as nat) == b as nat / pow2(
                    (32 - self.prefix_len) as nat,
                )
            },
            (IpAddress::V6(a), IpAddress::V6(b)) => {
                a as nat / pow2((128 - self.prefix_len) as nat) == b as nat / pow2(
                    (128 - self.prefix_len) as nat,
                )
            },
            _ => false,
        }
    }

    /// Whether `other` lies in this network.
    pub fn contains(&self, other: &IpAddress) -> (r: bool)
        requires
            self.wf(),
        ensures
            r == self.spec_contains(*other),
    {
        match (self.ip, *other) {
            (IpAddress::V4(a), IpAddress::V4(b)) => {
                let shift: u8 = 32 - self.prefix_len;
                let p: u64 = pow2_u64(shift);
                proof {
                    lemma_pow2_le(shift as nat, 32);
                    lemma_pow2_32();
                }
                (a as u64) / p == (b as u64) / p
            },
            (IpAddress::V6(a), IpAddress::V6(b)) => {
                if self.prefix_len == 0 {
                    proof {
                        assert(pow2(128) > u128::MAX) by {
                            lemma_pow2_128();
                        }
                        assert(a as nat / pow2(128) == 0) by (nonlinear_arith)
                            requires (a as nat) < pow2(128), pow2(128) > 0;
                        assert(b as nat / pow2(128) == 0) by (nonlinear_arith)
                            requires (b as nat) < pow2(128), pow2(128) > 0;
                    }
                    true
                } else {
                    let shift: u8 = 128 - self.prefix_len;
                    let p: u128 = pow2_u128(shift);
                    a / p == b / p
                }
            },
            _ => false,
        }
    }
}

/// Two to the power `k`, for exponents below 64.
fn pow2_u64(k: u8) -> (r: u64)
    requires
        k <= 32,
    ensures
        r == pow2(k as nat),
        r >= 1,
{
    let mut r: u64 = 1;
    let mut i: u8 = 0;
    proof {
        lemma2_to64();
    }
    while i < k
        invariant
            i <= k <= 32,
            r == pow2(i as nat),
        decreases k - i,
    {
        proof {
            lemma2_to64();
            lemma_pow2_le(i as nat, 31);
            lemma_pow2_adds(i as nat, 1);
        }
        r = r * 2;
        i = i + 1;
    }
    proof {
        lemma_pow2_pos(k as nat);
    }
    r
}

/// Two to the power `k`, for exponents below 128.
fn pow2_u128(k: u8) -> (r: u128)
    requires
        k <= 127,
    ensures
        r == pow2(k as nat),
        r >= 1,
{
    let mut r: u128 = 1;
    let mut i: u8 = 0;
    proof {
        lemma2_to64();
    }
    while i < k
        invariant
            i <= k <= 127,
            r == pow2(i as nat),
        decreases k - i,
    {
        proof {
            lemma2_to64();
            lemma_pow2_values();
            lemma_pow2_le(i as nat, 126);
            lemma_pow2_adds(i as nat, 1);
        }
        r = r * 2;
        i = i + 1;
    }
    proof {
        lemma_pow2_pos(k as nat);
    }
    r
}

/// The address and netmask that a local interface reports, as plain values.
/// Either may be missing, as the interface enumeration reports it.
#[derive(Clone, Copy, Debug, PartialEq, Eq, Structural)]
pub struct IfaceInfo {
    pub addr: Option<IpAddress>,
    pub mask: Option<IpAddress>,
}

/// The network that one interface is attached to, if the interface
/// reports an address and a netmask of the same family.
pub open spec fn spec_net_of(i: IfaceInfo) -> Option<HostNet> {
    match (i.addr, i.mask) {
        (Some(IpAddress::V4(a)), Some(IpAddress::V4(m))) => Some(
            HostNet { ip: IpAddress::V4(a), prefix_len: spec_popcount(m as nat) as u8 },
        ),
        (Some(IpAddress::V6(a)), Some(IpAddress::V6(m))) => Some(
            HostNet { ip: IpAddress::V6(a), prefix_len: spec_popcount(m as nat) as u8 },
        ),
        _ => None,
    }
}

/// The networks of the interfaces that report both an address and a
/// netmask of one family, in order.
pub open spec fn spec_host_nets(s: Seq<IfaceInfo>) -> Seq<HostNet>
    decreases s.len(),
{
    if s.len() == 0 {
        Seq::empty()
    } else {
        spec_host_nets(s.drop_last()) + match spec_net_of(s.last()) {
            Some(n) => seq![n],
            None => Seq::empty(),
        }
    }
}

/// Turns interface address/netmask pairs into the networks this host is
/// attached to; entries lacking an address or a netmask of the matching
/// family are skipped. The prefix length of each result is the number of
/// ones in the netmask.
pub fn host_ips(ifaces: &Vec<IfaceInfo>) -> (r: Vec<HostNet>)
    ensures
        r@ == spec_host_nets(ifaces@),
        forall|j: int| 0 <= j < r@.len() ==> (#[trigger] r@[j]).wf(),
{
    let mut r: Vec<HostNet> = Vec::new();
    let mut i: usize = 0;
    while i < ifaces.len()
        invariant
            i <= ifaces.len(),
            r@ == spec_host_nets(ifaces@.take(i as int)),
            forall|j: int| 0 <= j < r@.len() ==> (#[trigger] r@[j]).wf(),
        decreases ifaces.len() - i,
    {
        let iface = ifaces[i];
        match (iface.addr, iface.mask) {
            (Some(IpAddress::V4(a)), Some(IpAddress::V4(m))) => {
                let p = popcount_u32(m);
                r.push(HostNet { ip: IpAddress::V4(a), prefix_len: p });
            },
            (Some(IpAddress::V6(a)), Some(IpAddress::V6(m))) => {
                let p = popcount_u128(m);
                r.push(HostNet { ip: IpAddress::V6(a), prefix_len: p });
            },
            _ => {},
        }
        i = i + 1;
        proof {
            assert(ifaces@.take(i as int).drop_last() =~= ifaces@.take(i - 1));
        }
    }
    proof {
        assert(ifaces@.take(ifaces@.len() as int) =~= ifaces@);
    }
    r
}

/// The first of the given networks that contains `other`, if any.
pub open spec fn spec_matching_net(nets: Seq<HostNet>, other: IpAddress) -> Option<HostNet>
    decreases nets.len(),
{
    if nets.len() == 0 {
        None
    } else if nets.first().spec_contains(other) {
        Some(nets.first())
    } else {
        spec_matching_net(nets.drop_first(), other)
    }
}

/// Picks, among this host's networks, the address of the first one that
/// contains `other` — the local address a server should bind to so that
/// the device at `other` can reach it.
pub fn matching_host_ip_for(other: &IpAddress, nets: &Vec<HostNet>) -> (r: Result<
    IpAddress,
    Error,
>)
    requires
        forall|j: int| 0 <= j < nets@.len() ==> (#[trigger] nets@[j]).wf(),
    ensures
        match r {
            Ok(ip) => spec_matching_net(nets@, *other) matches Some(n) && n.ip == ip,
            Err(e) => spec_matching_net(nets@, *other) is None && (e matches Error::GenericError {
                msg,
            } && msg@ == "no usable interface found"@),
        },
{
    let mut i: usize = 0;
    proof {
        assert(nets@.skip(0) =~= nets@);
    }
    while i < nets.len()
        invariant
            i <= nets.len(),
            forall|j: int| 0 <= j < nets@.len() ==> (#[trigger] nets@[j]).wf(),
            spec_matching_net(nets@, *other) == spec_matching_net(nets@.skip(i as int), *other),
        decreases nets.len() - i,
    {
        let net = nets[i];
        if net.contains(other) {
            proof {
                assert(nets@.skip(i as int).first() == nets@[i as int]);
            }
            return Ok(net.ip);
        }
        proof {
            assert(nets@.skip(i as int).drop_first() =~= nets@.skip(i + 1));
        }
        i = i + 1;
    }
    Err(Error::GenericError { msg: String::from_str("no usable interface found") })
}

} // verus!
