//! Internet addresses.

use vstd::prelude::*;

verus! {

/// An IPv4 address, `a.b.c.d`.
#[derive(Clone, Copy, PartialEq, Eq, Structural, Debug)]
pub struct Ipv4Addr {
    pub a: u8,
    pub b: u8,
    pub c: u8,
    pub d: u8,
}

/// An IPv6 address: eight groups of sixteen bits.
#[derive(Clone, Copy, PartialEq, Eq, Structural, Debug)]
pub struct Ipv6Addr {
    pub s0: u16,
    pub s1: u16,
    pub s2: u16,
    pub s3: u16,
    pub s4: u16,
    pub s5: u16,
    pub s6: u16,
    pub s7: u16,
}

/// An IPv4 or an IPv6 address.
#[derive(Clone, Copy, PartialEq, Eq, Structural, Debug)]
pub enum IpAddr {
    V4(Ipv4Addr),
    V6(Ipv6Addr),
}

/// An address with a port; an IPv6 address may name the network interface by
/// its number.
#[allow(inconsistent_fields)]
#[derive(Clone, Copy, PartialEq, Eq, Structural, Debug)]
pub enum SocketAddr {
    V4 { ip: Ipv4Addr, port: u16 },
    V6 { ip: Ipv6Addr, port: u16, scope: u32 },
}

impl Ipv4Addr {
    /// The address `a.b.c.d`.
    pub fn new(a: u8, b: u8, c: u8, d: u8) -> (r: Ipv4Addr)
        ensures
            r == (Ipv4Addr { a, b, c, d }),
    {
        Ipv4Addr { a, b, c, d }
    }

    /// The address as a number, `a` in the highest byte.
    pub open spec fn value(self) -> int {
        self.a * 0x100_0000 + self.b * 0x1_0000 + self.c * 0x100 + self.d
    }

    /// The address as a number.
    pub fn to_bits(self) -> (r: u32)
        ensures
            r == self.value(),
    {
        self.a as u32 * 0x100_0000 + self.b as u32 * 0x1_0000 + self.c as u32 * 0x100
            + self.d as u32
    }

    /// The address whose number is `n`.
    pub open spec fn at_value(n: int) -> Ipv4Addr {
        Ipv4Addr {
            a: (n / 0x100 / 0x100 / 0x100) as u8,
            b: (n / 0x100 / 0x100 % 0x100) as u8,
            c: (n / 0x100 % 0x100) as u8,
            d: (n % 0x100) as u8,
        }
    }

    /// The address whose number is `bits`.
    pub fn from_bits(bits: u32) -> (r: Ipv4Addr)
        ensures
            r.value() == bits,
            r == Ipv4Addr::at_value(bits as int),
    {
        let abc: u32 = bits / 0x100;
        let ab: u32 = abc / 0x100;
        Ipv4Addr {
            a: (ab / 0x100) as u8,
            b: (ab % 0x100) as u8,
            c: (abc % 0x100) as u8,
            d: (bits % 0x100) as u8,
        }
    }

    /// The address 0.0.0.0.
    pub open spec fn unspecified() -> Ipv4Addr {
        Ipv4Addr { a: 0, b: 0, c: 0, d: 0 }
    }

    /// The networks kept for private use: 10.0.0.0/8, 172.16.0.0/12 and
    /// 192.168.0.0/16.
    pub open spec fn private(self) -> bool {
        ||| self.a == 10
        ||| self.a == 172 && 16 <= self.b <= 31
        ||| self.a == 192 && self.b == 168
    }

    pub fn is_private(self) -> (r: bool)
        ensures
            r == self.private(),
    {
        self.a == 10 || (self.a == 172 && 16 <= self.b && self.b <= 31) || (self.a == 192
            && self.b == 168)
    }

    /// The network 127.0.0.0/8.
    pub fn is_loopback(self) -> (r: bool)
        ensures
            r == (self.a == 127),
    {
        self.a == 127
    }

    /// The network 169.254.0.0/16.
    pub fn is_link_local(self) -> (r: bool)
        ensures
            r == (self.a == 169 && self.b == 254),
    {
        self.a == 169 && self.b == 254
    }

    /// The network 224.0.0.0/4.
    pub fn is_multicast(self) -> (r: bool)
        ensures
            r == (224 <= self.a <= 239),
    {
        224 <= self.a && self.a <= 239
    }

    /// The address 255.255.255.255.
    pub fn is_broadcast(self) -> (r: bool)
        ensures
            r == (self.value() == 0xffff_ffff),
    {
        self.a == 255 && self.b == 255 && self.c == 255 && self.d == 255
    }

    /// The address 0.0.0.0.
    pub fn is_unspecified(self) -> (r: bool)
        ensures
            r == (self == Ipv4Addr::unspecified()),
    {
        self.a == 0 && self.b == 0 && self.c == 0 && self.d == 0
    }
}

/// An address has one number, and a number one address.
pub proof fn law_address_numbers(ip: Ipv4Addr, n: int)
    requires
        0 <= n <= 0xffff_ffff,
    ensures
        0 <= ip.value() <= 0xffff_ffff,
        Ipv4Addr::at_value(ip.value()) == ip,
        Ipv4Addr::at_value(n).value() == n,
{
    let v = ip.value();
    assert(v / 0x100 == ip.a * 0x1_0000 + ip.b * 0x100 + ip.c);
    assert(v / 0x100 / 0x100 == ip.a * 0x100 + ip.b);
    let abc = n / 0x100;
    let ab = abc / 0x100;
    assert(n == abc * 0x100 + n % 0x100);
    assert(abc == ab * 0x100 + abc % 0x100);
    assert(ab == ab / 0x100 * 0x100 + ab % 0x100);
}

impl Ipv6Addr {
    /// The eight groups, from the first to the last.
    pub open spec fn segments(self) -> Seq<u16> {
        seq![self.s0, self.s1, self.s2, self.s3, self.s4, self.s5, self.s6, self.s7]
    }

    /// The address with the groups `s`.
    pub open spec fn of_segments(s: Seq<u16>) -> Ipv6Addr {
        Ipv6Addr {
            s0: s[0],
            s1: s[1],
            s2: s[2],
            s3: s[3],
            s4: s[4],
            s5: s[5],
            s6: s[6],
            s7: s[7],
        }
    }

    /// The eight groups in a list.
    pub fn to_segments(self) -> (r: Vec<u16>)
        ensures
            r@ == self.segments(),
    {
        let mut r: Vec<u16> = Vec::new();
        r.push(self.s0);
        r.push(self.s1);
        r.push(self.s2);
        r.push(self.s3);
        r.push(self.s4);
        r.push(self.s5);
        r.push(self.s6);
        r.push(self.s7);
        r
    }

    /// The address ::1.
    pub open spec fn loopback(self) -> bool {
        self.segments() == seq![0u16, 0, 0, 0, 0, 0, 0, 1]
    }

    /// The address ::.
    pub open spec fn unspecified(self) -> bool {
        self.segments() == seq![0u16, 0, 0, 0, 0, 0, 0, 0]
    }
}

impl IpAddr {
    /// Addresses by which a machine reaches itself.
    pub open spec fn loopback(self) -> bool {
        match self {
            IpAddr::V4(ip) => ip.a == 127,
            IpAddr::V6(ip) => ip.loopback(),
        }
    }

    /// The address that stands for no address.
    pub open spec fn unspecified(self) -> bool {
        match self {
            IpAddr::V4(ip) => ip == Ipv4Addr::unspecified(),
            IpAddr::V6(ip) => ip.unspecified(),
        }
    }

    pub fn is_loopback(self) -> (r: bool)
        ensures
            r == self.loopback(),
    {
        match self {
            IpAddr::V4(ip) => ip.is_loopback(),
            IpAddr::V6(ip) => {
                let r = ip.s0 == 0 && ip.s1 == 0 && ip.s2 == 0 && ip.s3 == 0 && ip.s4 == 0
                    && ip.s5 == 0 && ip.s6 == 0 && ip.s7 == 1;
                assert(ip.segments()[7] == ip.s7);
                assert(r ==> ip.segments() == seq![0u16, 0, 0, 0, 0, 0, 0, 1]);
                r
            },
        }
    }

    pub fn is_unspecified(self) -> (r: bool)
        ensures
            r == self.unspecified(),
    {
        match self {
            IpAddr::V4(ip) => ip.is_unspecified(),
            IpAddr::V6(ip) => {
                let r = ip.s0 == 0 && ip.s1 == 0 && ip.s2 == 0 && ip.s3 == 0 && ip.s4 == 0
                    && ip.s5 == 0 && ip.s6 == 0 && ip.s7 == 0;
                assert(ip.segments()[7] == ip.s7);
                assert(r ==> ip.segments() == seq![0u16, 0, 0, 0, 0, 0, 0, 0]);
                r
            },
        }
    }
}

impl SocketAddr {
    /// The address `ip` with the port `port`.
    pub open spec fn at(ip: IpAddr, port: u16) -> SocketAddr {
        match ip {
            IpAddr::V4(ip) => SocketAddr::V4 { ip, port },
            IpAddr::V6(ip) => SocketAddr::V6 { ip, port, scope: 0 },
        }
    }

    /// The address `ip` with the port `port`.
    pub fn new(ip: IpAddr, port: u16) -> (r: SocketAddr)
        ensures
            r == SocketAddr::at(ip, port),
    {
        match ip {
            IpAddr::V4(ip) => SocketAddr::V4 { ip, port },
            IpAddr::V6(ip) => SocketAddr::V6 { ip, port, scope: 0 },
        }
    }

    /// The address without its port.
    pub open spec fn ip_part(self) -> IpAddr {
        match self {
            SocketAddr::V4 { ip, .. } => IpAddr::V4(ip),
            SocketAddr::V6 { ip, .. } => IpAddr::V6(ip),
        }
    }

    pub fn ip(self) -> (r: IpAddr)
        ensures
            r == self.ip_part(),
    {
        match self {
            SocketAddr::V4 { ip, .. } => IpAddr::V4(ip),
            SocketAddr::V6 { ip, .. } => IpAddr::V6(ip),
        }
    }

    /// The port.
    pub open spec fn port_part(self) -> u16 {
        match self {
            SocketAddr::V4 { port, .. } => port,
            SocketAddr::V6 { port, .. } => port,
        }
    }

    pub fn port(self) -> (r: u16)
        ensures
            r == self.port_part(),
    {
        match self {
            SocketAddr::V4 { port, .. } => port,
            SocketAddr::V6 { port, .. } => port,
        }
    }

    /// The same address with another port.
    pub open spec fn at_port(self, port: u16) -> SocketAddr {
        match self {
            SocketAddr::V4 { ip, .. } => SocketAddr::V4 { ip, port },
            SocketAddr::V6 { ip, scope, .. } => SocketAddr::V6 { ip, port, scope },
        }
    }

    pub fn with_port(self, port: u16) -> (r: SocketAddr)
        ensures
            r == self.at_port(port),
    {
        match self {
            SocketAddr::V4 { ip, .. } => SocketAddr::V4 { ip, port },
            SocketAddr::V6 { ip, scope, .. } => SocketAddr::V6 { ip, port, scope },
        }
    }
}

} // verus!
