//! Client addresses and the bucket each of them is limited by.

use vstd::prelude::*;

verus! {

/// How many addresses share one IPv6 /64 network.
pub const NET_64: u128 = 0x1_0000_0000_0000_0000;

/// How many IPv4 addresses there are.
pub const NET_V4: u128 = 0x1_0000_0000;

/// The ninety-six leading bits of an IPv4-mapped IPv6 address, `::ffff:0:0`.
pub const MAPPED_V4: u128 = 0xffff;

/// A client address; its octets, most significant first, as one number.
#[derive(Debug, Clone, Copy, PartialEq, Eq, Structural)]
pub enum IpAddr {
    V4(u32),
    V6(u128),
}

/// An address as a pair that tables are keyed by: whether it is IPv6, and its
/// number.
pub type IpKey = (bool, u128);

impl IpAddr {
    /// The address as a table key.
    pub open spec fn pair(self) -> IpKey {
        match self {
            IpAddr::V4(v4) => (false, v4 as u128),
            IpAddr::V6(v6) => (true, v6),
        }
    }

    /// Is this the IPv6 form `::ffff:a.b.c.d` of an IPv4 address?
    pub open spec fn is_mapped(self) -> bool {
        self matches IpAddr::V6(v6) && v6 / NET_V4 == MAPPED_V4
    }

    /// The address whose bucket this one is counted in.
    pub open spec fn bucket(self) -> IpAddr {
        match self {
            IpAddr::V4(_) => self,
            IpAddr::V6(v6) => if v6 / NET_V4 == MAPPED_V4 {
                IpAddr::V4((v6 % NET_V4) as u32)
            } else {
                IpAddr::V6((v6 - v6 % NET_64) as u128)
            },
        }
    }

    /// The address as a table key.
    pub fn to_pair(self) -> (key: IpKey)
        ensures
            key == self.pair(),
    {
        match self {
            IpAddr::V4(v4) => (false, v4 as u128),
            IpAddr::V6(v6) => (true, v6),
        }
    }

    /// IPv6 is limited per /64 (interface bits are trivially rotated by a
    /// single client), IPv4 per address. IPv4-mapped IPv6 addresses
    /// (`::ffff:a.b.c.d`, seen on dual-stack binds) are unmapped first so they
    /// don't all collapse into one /64 bucket.
    pub fn key(self) -> (bucket: IpAddr)
        ensures
            bucket == self.bucket(),
    {
        match self {
            IpAddr::V4(_) => self,
            IpAddr::V6(v6) => if v6 / NET_V4 == MAPPED_V4 {
                IpAddr::V4((v6 % NET_V4) as u32)
            } else {
                IpAddr::V6(v6 - v6 % NET_64)
            },
        }
    }
}

/// Different addresses have different table keys.
pub proof fn law_keys_tell_addresses_apart(a: IpAddr, b: IpAddr)
    requires
        a.pair() == b.pair(),
    ensures
        a == b,
{
}

/// A bucket is its own bucket.
pub proof fn law_bucket_is_its_own(a: IpAddr)
    ensures
        a.bucket().bucket() == a.bucket(),
{
    if let IpAddr::V6(v6) = a {
        let net: u128 = (v6 - v6 % NET_64) as u128;
        assert(net % NET_64 == 0 && net / NET_V4 != MAPPED_V4) by (nonlinear_arith)
            requires
                net == v6 - v6 % NET_64,
                NET_64 == 0x1_0000_0000_0000_0000,
                NET_V4 == 0x1_0000_0000,
                MAPPED_V4 == 0xffff,
        ;
    }
}

/// Two IPv6 addresses that are not IPv4 in disguise share a bucket exactly
/// when they lie in the same /64 network.
pub proof fn law_bucket_is_the_network(a: u128, b: u128)
    requires
        !IpAddr::V6(a).is_mapped(),
        !IpAddr::V6(b).is_mapped(),
    ensures
        IpAddr::V6(a).bucket() == IpAddr::V6(b).bucket() <==> a / NET_64 == b / NET_64,
{
    assert(a - a % NET_64 == NET_64 * (a / NET_64) && b - b % NET_64 == NET_64 * (b / NET_64))
        by (nonlinear_arith)
        requires
            NET_64 == 0x1_0000_0000_0000_0000,
    ;
}

/// An IPv4 address has a bucket of its own, which its IPv4-mapped IPv6 form
/// shares and no other IPv4 address does.
pub proof fn law_bucket_of_v4(a: u32, b: u32)
    ensures
        IpAddr::V6((MAPPED_V4 * NET_V4 + a) as u128).bucket() == IpAddr::V4(a).bucket(),
        IpAddr::V4(a).bucket() == IpAddr::V4(b).bucket() <==> a == b,
{
}

/// An IPv6 address that is not IPv4 in disguise is counted under an IPv6 address
/// of its own /64 network, one that is under the IPv4 address in its last 32
/// bits, and an IPv4 address under itself.
pub proof fn law_bucket_lies_in_the_network(v6: u128, v4: u32)
    ensures
        v6 / 0x1_0000_0000 != 0xffff ==> (IpAddr::V6(v6).bucket() matches IpAddr::V6(net) && net
            / 0x1_0000_0000_0000_0000 == v6 / 0x1_0000_0000_0000_0000 && net
            % 0x1_0000_0000_0000_0000 == 0),
        v6 / 0x1_0000_0000 == 0xffff ==> IpAddr::V6(v6).bucket() == IpAddr::V4(
            (v6 % 0x1_0000_0000) as u32,
        ),
        IpAddr::V4(v4).bucket() == IpAddr::V4(v4),
{
    let net: u128 = (v6 - v6 % NET_64) as u128;
    assert(net % NET_64 == 0 && net / NET_64 == v6 / NET_64) by (nonlinear_arith)
        requires
            net == v6 - v6 % NET_64,
            NET_64 == 0x1_0000_0000_0000_0000,
    ;
}

} // verus!
