//! Network addresses as plain values, and which of them the forwarder may reach.
use vstd::prelude::*;

verus! {

/// An IP address: four octets, or eight 16-bit segments.
#[derive(Clone, Copy, Debug, PartialEq, Eq)]
pub enum IpAddress {
    V4([u8; 4]),
    V6([u16; 8]),
}

/// An IP address with a port. An IPv6 address also carries its flow
/// information and scope id, as `SocketAddrV6` does; both are zero for IPv4.
#[derive(Clone, Copy, Debug, PartialEq, Eq)]
pub struct SocketAddress {
    pub ip: IpAddress,
    pub port: u16,
    pub flowinfo: u32,
    pub scope_id: u32,
}

/// The IPv4 ranges that `Ipv4Addr::is_private` names: 10/8, 172.16/12, 192.168/16.
pub open spec fn v4_private(o: [u8; 4]) -> bool {
    ||| o[0] == 10
    ||| o[0] == 172 && 16 <= o[1] && o[1] <= 31
    ||| o[0] == 192 && o[1] == 168
}

/// The documentation ranges of `Ipv4Addr::is_documentation`:
/// 192.0.2/24, 198.51.100/24 and 203.0.113/24.
pub open spec fn v4_documentation(o: [u8; 4]) -> bool {
    ||| o[0] == 192 && o[1] == 0 && o[2] == 2
    ||| o[0] == 198 && o[1] == 51 && o[2] == 100
    ||| o[0] == 203 && o[1] == 0 && o[2] == 113
}

/// A public IPv4 address: none of private, loopback (127/8), link-local
/// (169.254/16), broadcast, documentation, "this network" (0/8), multicast and
/// reserved (224/3 and above), shared (100.64/10), benchmarking (198.18/15) and
/// IETF protocol assignments (192.0.0/24).
pub open spec fn v4_public(o: [u8; 4]) -> bool {
    !{
        ||| v4_private(o)
        ||| o[0] == 127
        ||| o[0] == 169 && o[1] == 254
        ||| o[0] == 255 && o[1] == 255 && o[2] == 255 && o[3] == 255
        ||| v4_documentation(o)
        ||| o[0] == 0
        ||| o[0] >= 224
        ||| o[0] == 100 && 64 <= o[1] && o[1] <= 127
        ||| o[0] == 198 && (o[1] == 18 || o[1] == 19)
        ||| o[0] == 192 && o[1] == 0 && o[2] == 0
    }
}

/// A public IPv6 address: global unicast (2000::/3), excluding 6to4 (2002::/16),
/// the IETF protocol block 2001::/23, documentation (2001:db8::/32) and 3fff::/20.
pub open spec fn v6_public(s: [u16; 8]) -> bool {
    &&& (s[0] & 0xe000u16) == 0x2000u16
    &&& s[0] != 0x2002
    &&& !(s[0] == 0x2001 && (s[1] < 0x200 || s[1] == 0xdb8))
    &&& !(s[0] == 0x3fff && s[1] < 0x1000)
}

pub open spec fn is_public(ip: IpAddress) -> bool {
    match ip {
        IpAddress::V4(o) => v4_public(o),
        IpAddress::V6(s) => v6_public(s),
    }
}

/// 127/8, or `::1`.
pub open spec fn is_loopback(ip: IpAddress) -> bool {
    match ip {
        IpAddress::V4(o) => o[0] == 127,
        IpAddress::V6(s) => s[0] == 0 && s[1] == 0 && s[2] == 0 && s[3] == 0 && s[4] == 0 && s[5]
            == 0 && s[6] == 0 && s[7] == 1,
    }
}

/// Whether a resolved address may be reached directly, so that DNS cannot
/// redirect the forwarder into the local network.
pub fn public_address(ip: IpAddress) -> (r: bool)
    ensures
        r == is_public(ip),
{
    match ip {
        IpAddress::V4(o) => {
            let a = o[0];
            let b = o[1];
            let c = o[2];
            let d = o[3];
            let private = a == 10 || (a == 172 && 16 <= b && b <= 31) || (a == 192 && b == 168);
            let documentation = (a == 192 && b == 0 && c == 2) || (a == 198 && b == 51 && c == 100)
                || (a == 203 && b == 0 && c == 113);
            !(private || a == 127 || (a == 169 && b == 254) || (a == 255 && b == 255 && c == 255
                && d == 255) || documentation || a == 0 || a >= 224 || (a == 100 && 64 <= b && b
                <= 127) || (a == 198 && (b == 18 || b == 19)) || (a == 192 && b == 0 && c == 0))
        },
        IpAddress::V6(s) => {
            (s[0] & 0xe000u16) == 0x2000u16 && s[0] != 0x2002 && !(s[0] == 0x2001 && (s[1] < 0x200
                || s[1] == 0xdb8)) && !(s[0] == 0x3fff && s[1] < 0x1000)
        },
    }
}

pub fn loopback_address(ip: IpAddress) -> (r: bool)
    ensures
        r == is_loopback(ip),
{
    match ip {
        IpAddress::V4(o) => o[0] == 127,
        IpAddress::V6(s) => s[0] == 0 && s[1] == 0 && s[2] == 0 && s[3] == 0 && s[4] == 0 && s[5]
            == 0 && s[6] == 0 && s[7] == 1,
    }
}

/// Which IPv4 addresses count as public, range by range: an address is public
/// exactly when it lies in none of 0/8, 10/8, 100.64/10, 127/8, 169.254/16,
/// 172.16/12, 192.0.0/24, 192.0.2/24, 192.168/16, 198.18/15, 198.51.100/24,
/// 203.0.113/24 and 224/3 and above.
pub proof fn lemma_public_v4_ranges(o: [u8; 4])
    ensures
        is_public(IpAddress::V4(o)) <==> !{
            ||| o[0] == 0
            ||| o[0] == 10
            ||| o[0] == 100 && 64 <= o[1] <= 127
            ||| o[0] == 127
            ||| o[0] == 169 && o[1] == 254
            ||| o[0] == 172 && 16 <= o[1] <= 31
            ||| o[0] == 192 && o[1] == 0 && (o[2] == 0 || o[2] == 2)
            ||| o[0] == 192 && o[1] == 168
            ||| o[0] == 198 && 18 <= o[1] <= 19
            ||| o[0] == 198 && o[1] == 51 && o[2] == 100
            ||| o[0] == 203 && o[1] == 0 && o[2] == 113
            ||| o[0] >= 224
        },
{
}

/// Which IPv6 addresses count as public: only global unicast (first group
/// 0x2000 to 0x3fff), and not 6to4 (2002::/16), the IETF block 2001:0::/23,
/// documentation (2001:db8::/32) or 3fff::/20. In particular loopback,
/// unspecified, unique-local, link-local and multicast addresses are not.
pub proof fn lemma_public_v6_ranges(g: [u16; 8])
    ensures
        is_public(IpAddress::V6(g)) <==> {
            &&& 0x2000 <= g[0] < 0x4000
            &&& g[0] != 0x2002
            &&& !(g[0] == 0x2001 && (g[1] < 0x200 || g[1] == 0xdb8))
            &&& !(g[0] == 0x3fff && g[1] < 0x1000)
        },
{
    let x = g[0];
    assert((x & 0xe000u16) == 0x2000u16 <==> (0x2000u16 <= x && x < 0x4000u16)) by (bit_vector);
}

/// Loopback is exactly 127/8 and `::1`.
pub proof fn lemma_loopback(o: [u8; 4], g: [u16; 8])
    ensures
        is_loopback(IpAddress::V4(o)) <==> o[0] == 127,
        is_loopback(IpAddress::V6(g)) <==> g@ == seq![0u16, 0, 0, 0, 0, 0, 0, 1],
        !is_public(IpAddress::V4(o)) || !is_loopback(IpAddress::V4(o)),
        !is_public(IpAddress::V6(g)) || !is_loopback(IpAddress::V6(g)),
{
    if g@ == seq![0u16, 0, 0, 0, 0, 0, 0, 1] {
        assert(g[0] == g@[0] && g[7] == g@[7] && g[1] == g@[1] && g[2] == g@[2] && g[3] == g@[3]
            && g[4] == g@[4] && g[5] == g@[5] && g[6] == g@[6]);
    }
    if is_loopback(IpAddress::V6(g)) {
        assert(g@ =~= seq![0u16, 0, 0, 0, 0, 0, 0, 1]);
    }
    lemma_public_v6_ranges(g);
}

/// Why a DNS answer is not used for a direct connection.
#[derive(Clone, Copy, Debug, PartialEq, Eq)]
pub enum DnsRefusal {
    /// The answer holds no address.
    NoAddresses,
    /// Some address of the answer is local or reserved.
    NonPublicAddress,
}

/// The connector that reaches destinations without Tor.
pub struct Direct;

impl Direct {
    /// A DNS answer is used only when it is non-empty and every address in it
    /// is public; one local or reserved address rejects the whole answer.
    pub fn accept_answer(addresses: &Vec<IpAddress>) -> (r: Result<(), DnsRefusal>)
        ensures
            addresses@.len() == 0 ==> r == Err::<(), DnsRefusal>(DnsRefusal::NoAddresses),
            addresses@.len() > 0 ==> (r is Ok <==> forall|i: int|
                0 <= i < addresses@.len() ==> is_public(#[trigger] addresses@[i])),
            addresses@.len() > 0 && r is Err ==> r == Err::<(), DnsRefusal>(
                DnsRefusal::NonPublicAddress,
            ),
    {
        if addresses.len() == 0 {
            return Err(DnsRefusal::NoAddresses);
        }
        let mut i: usize = 0;
        while i < addresses.len()
            invariant
                i <= addresses@.len(),
                forall|j: int| 0 <= j < i ==> is_public(#[trigger] addresses@[j]),
            decreases addresses.len() - i,
        {
            if !public_address(addresses[i]) {
                return Err(DnsRefusal::NonPublicAddress);
            }
            i = i + 1;
        }
        Ok(())
    }
}

/// The address a Tor worker announces is usable: loopback, with a real port.
pub open spec fn usable_worker_address(a: SocketAddress) -> bool {
    is_loopback(a.ip) && a.port != 0
}

pub fn worker_address_usable(a: SocketAddress) -> (r: bool)
    ensures
        r == usable_worker_address(a),
{
    loopback_address(a.ip) && a.port != 0
}

} // verus!
