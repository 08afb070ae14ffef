use luoda::addr::{IpAddr, Ipv4Addr, Ipv6Addr, SocketAddr};
use luoda::addr_text::{ip_to_string, read_ip, read_socket, socket_to_string};
use luoda::text::chars_of;

fn v6(s: [u16; 8]) -> Ipv6Addr {
    Ipv6Addr {
        s0: s[0],
        s1: s[1],
        s2: s[2],
        s3: s[3],
        s4: s[4],
        s5: s[5],
        s6: s[6],
        s7: s[7],
    }
}

fn ip(s: &str) -> Option<IpAddr> {
    read_ip(chars_of(s).as_slice())
}

fn socket(s: &str) -> Option<SocketAddr> {
    read_socket(chars_of(s).as_slice())
}

#[test]
fn addresses_are_written_in_the_usual_form() {
    let cases: [([u16; 8], &str); 9] = [
        ([0, 0, 0, 0, 0, 0, 0, 0], "::"),
        ([0, 0, 0, 0, 0, 0, 0, 1], "::1"),
        ([1, 0, 0, 0, 0, 0, 0, 0], "1::"),
        ([0x2001, 0xdb8, 0, 0, 0, 0, 0, 8], "2001:db8::8"),
        ([1, 0, 0, 4, 5, 0, 0, 8], "1::4:5:0:0:8"),
        ([1, 0, 3, 4, 5, 6, 7, 8], "1:0:3:4:5:6:7:8"),
        ([1, 0, 0, 4, 0, 0, 0, 8], "1:0:0:4::8"),
        ([0, 0, 0, 0, 0, 0xffff, 0xc0a8, 0x0108], "::ffff:192.168.1.8"),
        ([0xfe80, 0, 0, 0, 0xabcd, 0xef01, 0x10, 0xff], "fe80::abcd:ef01:10:ff"),
    ];
    for (segments, text) in cases {
        let address = IpAddr::V6(v6(segments));
        assert_eq!(ip_to_string(address), text);
        assert_eq!(ip(text), Some(address));
    }
}

#[test]
fn other_forms_are_read_too() {
    assert_eq!(ip("::ABCD"), Some(IpAddr::V6(v6([0, 0, 0, 0, 0, 0, 0, 0xabcd]))));
    assert_eq!(
        ip("1:2:3:4:5:6:1.2.3.4"),
        Some(IpAddr::V6(v6([1, 2, 3, 4, 5, 6, 0x102, 0x304])))
    );
    assert_eq!(ip("01::"), Some(IpAddr::V6(v6([1, 0, 0, 0, 0, 0, 0, 0]))));
}

#[test]
fn what_is_no_address_is_not_read() {
    for text in [
        "", "1", "1.2.3", "1.2.3.4.5", "256.1.1.1", "01.2.3.4", "1.2.3.4 ", "a.b.c.d", ":", ":::",
        "1::2::3", "12345::", "1:2:3:4:5:6:7", "1:2:3:4:5:6:7:8:9", "1.2.3.4::", "g::", "::1%2",
    ] {
        assert_eq!(ip(text), None);
    }
}

#[test]
fn sockets_are_read_back() {
    let v4 = SocketAddr::V4 {
        ip: Ipv4Addr::new(49, 113, 34, 200),
        port: 21118,
    };
    assert_eq!(socket_to_string(v4), "49.113.34.200:21118");
    assert_eq!(socket("49.113.34.200:21118"), Some(v4));
    let v6 = SocketAddr::V6 {
        ip: v6([0xfe80, 0, 0, 0, 0, 0, 0, 1]),
        port: 0,
        scope: 7,
    };
    assert_eq!(socket_to_string(v6), "[fe80::1%7]:0");
    assert_eq!(socket("[fe80::1%7]:0"), Some(v6));
}

#[test]
fn an_unbracketed_address_has_no_port() {
    assert_eq!(socket("::1:5000"), None);
    assert_eq!(socket("2001:db8::8"), None);
    assert_eq!(socket("192.168.1.8"), None);
    assert_eq!(socket("[::1]"), None);
    assert_eq!(socket("[::1]:"), None);
    assert_eq!(socket("[1.2.3.4]:80"), None);
}

#[test]
fn the_number_of_an_address() {
    let a = Ipv4Addr::new(192, 168, 1, 8);
    assert_eq!(a.to_bits(), 0xc0a8_0108);
    assert_eq!(Ipv4Addr::from_bits(0xc0a8_0108), a);
}
