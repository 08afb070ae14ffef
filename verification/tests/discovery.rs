use luoda::adapter::{is_virtual_adapter, Interface, Ipv4Net};
use luoda::addr::{IpAddr, Ipv4Addr, Ipv6Addr, SocketAddr};
use luoda::direct_access::lan_peer_hosts;
use luoda::lan::{
    bind_step, broadcast_sources, discover, discover_impl, discover_impl_within,
    discover_lan_first_within, discover_within, get_broadcast_port, get_mac, get_mac_by_ip, ping,
    pong, wants_pong, BindStep, DiscoveryError, DiscoverySetup, PeerDiscovery, DISCOVER_WINDOW,
};
use luoda::lan_peer::{DiscoveryPeer, IpMacList};
use luoda::replies::{PeerBook, ResponseWaiter};
use luoda::sweep::SweepClock;
use luoda::wake::{send_wol, wake_packets};

const SECOND: u64 = 1_000_000_000;
const MILLI: u64 = 1_000_000;

fn adapter(name: &str, ip: Ipv4Addr, mac: Option<[u8; 6]>) -> Interface {
    Interface {
        name: name.to_owned(),
        ipv4: vec![Ipv4Net {
            addr: ip,
            prefix_len: 24,
        }],
        ipv6: Vec::new(),
        mac,
    }
}

fn lo6() -> Ipv6Addr {
    Ipv6Addr {
        s0: 0,
        s1: 0,
        s2: 0,
        s3: 0,
        s4: 0,
        s5: 0,
        s6: 0,
        s7: 1,
    }
}

fn message(cmd: &str, id: &str, mac: &str) -> PeerDiscovery {
    PeerDiscovery {
        cmd: cmd.to_owned(),
        mac: mac.to_owned(),
        id: id.to_owned(),
        username: "u".to_owned(),
        hostname: "h".to_owned(),
        platform: "p".to_owned(),
    }
}

fn answer(id: &str, entries: &[(&str, &str)]) -> DiscoveryPeer {
    let mut ip_mac = IpMacList::new();
    for (ip, mac) in entries {
        ip_mac.insert((*ip).to_owned(), (*mac).to_owned());
    }
    DiscoveryPeer {
        id: id.to_owned(),
        ip_mac,
        username: String::new(),
        hostname: String::new(),
        platform: String::new(),
        online: true,
    }
}

#[test]
fn hardware_addresses_are_written_in_pairs() {
    let interfaces = vec![
        adapter("a", Ipv4Addr::new(10, 0, 0, 1), None),
        adapter(
            "b",
            Ipv4Addr::new(10, 0, 0, 1),
            Some([0x00, 0x1a, 0x2b, 0x0c, 0xd0, 0xff]),
        ),
    ];
    let ip = IpAddr::V4(Ipv4Addr::new(10, 0, 0, 1));
    assert_eq!(get_mac(ip, &interfaces), "00:1a:2b:0c:d0:ff");
    assert_eq!(
        get_mac_by_ip(ip, &interfaces).as_deref(),
        Some("00:1a:2b:0c:d0:ff")
    );
    let other = IpAddr::V4(Ipv4Addr::new(10, 0, 0, 2));
    assert_eq!(get_mac(other, &interfaces), "");
    assert_eq!(get_mac_by_ip(other, &interfaces), None);
}

#[test]
fn hardware_addresses_are_found_by_ipv6_too() {
    let mut interface = adapter("a", Ipv4Addr::new(10, 0, 0, 1), Some([1, 2, 3, 4, 5, 6]));
    interface.ipv6.push(lo6());
    assert_eq!(
        get_mac(IpAddr::V6(lo6()), &vec![interface]),
        "01:02:03:04:05:06"
    );
}

#[test]
fn virtual_adapters_are_known_by_name() {
    for name in ["Tailscale", "vEthernet (WSL)", "tun0", "TAP-Windows", "VMware1", "6TO4"] {
        assert!(is_virtual_adapter(name));
    }
    for name in ["eth0", "Wi-Fi", "Ethernet 2", "en0", ""] {
        assert!(!is_virtual_adapter(name));
    }
}

#[test]
fn the_listener_tries_ten_times() {
    assert_eq!(get_broadcast_port(), 21119);
    assert_eq!(bind_step(0, true), BindStep::Listen);
    assert_eq!(bind_step(9, true), BindStep::Listen);
    for attempt in 0..9 {
        assert_eq!(bind_step(attempt, false), BindStep::Retry { wait: 500 });
    }
    assert_eq!(bind_step(9, false), BindStep::GiveUp { wait: 500 });
}

#[test]
fn pings_of_others_are_answered() {
    assert!(wants_pong(&message("ping", "2", ""), true, "1"));
    assert!(wants_pong(&message("ping", "", ""), true, "1"));
    assert!(!wants_pong(&message("ping", "1", ""), true, "1"));
    assert!(!wants_pong(&message("ping", "2", ""), false, "1"));
    assert!(!wants_pong(&message("pong", "2", ""), true, "1"));
}

#[test]
fn a_pong_tells_who_answers() {
    let interfaces = vec![adapter(
        "a",
        Ipv4Addr::new(10, 0, 0, 1),
        Some([1, 2, 3, 4, 5, 6]),
    )];
    let p = pong(
        IpAddr::V4(Ipv4Addr::new(10, 0, 0, 1)),
        &interfaces,
        "42".to_owned(),
        "localhost".to_owned(),
        "me".to_owned(),
        "Linux".to_owned(),
    );
    assert_eq!(p.cmd, "pong");
    assert_eq!(p.mac, "01:02:03:04:05:06");
    assert_eq!(p.id, "42");
    assert_eq!(p.hostname, "unknown");
    assert_eq!(p.username, "me");
    assert_eq!(p.platform, "Linux");
    let q = pong(
        IpAddr::V4(Ipv4Addr::new(10, 0, 0, 2)),
        &interfaces,
        "42".to_owned(),
        "desk".to_owned(),
        "me".to_owned(),
        "Linux".to_owned(),
    );
    assert_eq!(q.mac, "");
    assert_eq!(q.hostname, "desk");
}

#[test]
fn a_ping_gives_an_id_only_where_it_is_needed() {
    let desktop = ping(None);
    assert_eq!(desktop.cmd, "ping");
    assert_eq!(desktop.id, "");
    assert_eq!(ping(Some("42".to_owned())).id, "42");
}

#[test]
fn a_round_without_sockets_fails() {
    let interfaces = Vec::new();
    let setup = DiscoverySetup {
        sockets: 0,
        interfaces: &interfaces,
        extra: "",
    };
    assert!(matches!(
        discover_within(DISCOVER_WINDOW, true, &setup),
        Err(DiscoveryError::NoBindableAddress)
    ));
    let mut clock = SweepClock { last: 0 };
    assert!(matches!(
        discover(&mut clock, 1_000, &setup),
        Err(DiscoveryError::NoBindableAddress)
    ));
    // The sweep counts as made even so.
    assert_eq!(clock.last, 1_000);
}

#[test]
fn rounds_differ_in_window_and_sweep() {
    let interfaces = vec![adapter("eth0", Ipv4Addr::new(192, 168, 1, 7), None)];
    let setup = DiscoverySetup {
        sockets: 2,
        interfaces: &interfaces,
        extra: "",
    };
    let mut clock = SweepClock { last: 0 };
    let first = discover_impl(&mut clock, 1_000, &setup).ok().unwrap();
    assert_eq!(
        first.broadcast,
        SocketAddr::V4 {
            ip: Ipv4Addr::new(255, 255, 255, 255),
            port: 21119
        }
    );
    assert_eq!(first.port, 21119);
    assert_eq!(first.routes.len(), 1);
    assert_eq!(first.window, 3 * SECOND);
    assert!(first.mark_stale_offline);
    let second = discover_impl_within(DISCOVER_WINDOW, &mut clock, 1_010, &setup)
        .ok()
        .unwrap();
    assert!(second.routes.is_empty());
    let before_connect = discover_lan_first_within(1_500 * MILLI, &setup).ok().unwrap();
    assert_eq!(before_connect.routes.len(), 1);
    assert!(!before_connect.mark_stale_offline);
    assert_eq!(before_connect.window, 1_500 * MILLI);
}

#[test]
fn broadcasts_leave_from_every_address() {
    let interfaces = vec![
        adapter("a", Ipv4Addr::new(10, 0, 0, 1), None),
        adapter("b", Ipv4Addr::new(101, 0, 0, 2), None),
    ];
    assert_eq!(
        broadcast_sources(&interfaces),
        vec![
            Ipv4Addr::new(10, 0, 0, 1),
            Ipv4Addr::new(101, 0, 0, 2),
            Ipv4Addr::new(0, 0, 0, 0),
        ]
    );
}

#[test]
fn own_pongs_are_no_answers() {
    let own = [1, 2, 3, 4, 5, 6];
    let interfaces = vec![adapter("a", Ipv4Addr::new(10, 0, 0, 1), Some(own))];
    let local = IpAddr::V4(Ipv4Addr::new(10, 0, 0, 1));
    let from = IpAddr::V4(Ipv4Addr::new(10, 0, 0, 9));
    let mut waiter = ResponseWaiter::new(Some(local), 3 * SECOND, 0);
    assert!(!waiter.needs_route());
    assert!(waiter
        .on_message(&message("pong", "1", "01:02:03:04:05:06"), from, None, &interfaces, 1)
        .is_none());
    assert!(waiter
        .on_message(&message("ping", "2", "aa"), from, None, &interfaces, 2)
        .is_none());
    let peer = waiter
        .on_message(
            &message("pong", "2", "aa:bb:cc:dd:ee:ff"),
            from,
            None,
            &interfaces,
            3,
        )
        .unwrap();
    assert_eq!(peer.id, "2");
    assert!(peer.online);
    assert_eq!(peer.ip_mac.len(), 1);
    assert_eq!(peer.ip_mac.ip(0), "10.0.0.9");
    assert_eq!(peer.ip_mac.mac(0), "aa:bb:cc:dd:ee:ff");
    assert_eq!(waiter.mac.as_deref(), Some("01:02:03:04:05:06"));
}

#[test]
fn peers_without_hardware_addresses_are_answers() {
    let interfaces = Vec::new();
    let from = IpAddr::V4(Ipv4Addr::new(10, 0, 0, 9));
    let mut waiter = ResponseWaiter::new(
        Some(IpAddr::V4(Ipv4Addr::new(0, 0, 0, 0))),
        3 * SECOND,
        0,
    );
    assert!(waiter.needs_route());
    assert!(waiter
        .on_message(&message("pong", "2", ""), from, None, &interfaces, 1)
        .is_some());
    assert_eq!(waiter.mac, None);
    assert!(ResponseWaiter::new(None, SECOND, 0).needs_route());
}

#[test]
fn the_wait_ends_when_time_is_up_or_nothing_comes() {
    let interfaces = Vec::new();
    let from = IpAddr::V4(Ipv4Addr::new(10, 0, 0, 9));
    let mut waiter = ResponseWaiter::new(None, 10 * SECOND, 0);
    assert!(!waiter.finished(3 * SECOND));
    assert!(waiter.finished(3 * SECOND + MILLI));
    waiter.on_message(&message("ping", "2", ""), from, None, &interfaces, 2 * SECOND);
    assert!(!waiter.finished(5 * SECOND));
    assert!(waiter.finished(10 * SECOND));
}

#[test]
fn stale_peers_have_no_hosts_until_they_answer() {
    let peers = vec![answer("7", &[("10.0.0.7", "m")])];
    let book = PeerBook::open(peers, true);
    assert!(lan_peer_hosts("7", 21118, &book.peers).is_empty());
    let mut book = PeerBook::open(vec![answer("7", &[("10.0.0.7", "m")])], false);
    assert_eq!(lan_peer_hosts("7", 21118, &book.peers).len(), 11);
    book.receive(answer("7", &[("10.0.0.8", "m")]), &vec![true], 0);
    assert_eq!(lan_peer_hosts("7", 21118, &book.peers)[0], "10.0.0.8:21118");
}

#[test]
fn answers_of_one_round_are_merged() {
    let mut book = PeerBook::open(vec![answer("1", &[("10.0.0.1", "a")])], true);
    // The first answer of a round takes the place of what was known.
    assert!(book.receive(answer("7", &[("10.0.0.7", "m")]), &vec![false], 0));
    assert_eq!(book.peers.len(), 2);
    assert_eq!(book.peers[0].id, "7");
    // Another one within 300 ms is not written at once.
    assert!(!book.receive(
        answer("7", &[("10.0.1.7", "n")]),
        &vec![true, false],
        300 * MILLI
    ));
    assert_eq!(book.peers.len(), 2);
    assert_eq!(book.peers[0].ip_mac.len(), 2);
    assert_eq!(book.peers[0].ip_mac.ip(0), "10.0.1.7");
    assert_eq!(book.peers[0].ip_mac.ip(1), "10.0.0.7");
    // The first answer of the other peer forgets its old address.
    assert!(book.receive(
        answer("1", &[("10.0.0.2", "b")]),
        &vec![false, true],
        301 * MILLI
    ));
    assert_eq!(book.peers[0].id, "1");
    assert_eq!(book.peers[0].ip_mac.len(), 1);
    assert_eq!(book.peers[0].ip_mac.ip(0), "10.0.0.2");
    assert_eq!(book.peers[1].id, "7");
}

#[test]
fn a_round_lists_who_answered_and_then_who_did_not() {
    let known = vec![
        answer("1", &[("10.0.0.1", "a")]),
        answer("2", &[("10.0.0.2", "b")]),
        answer("3", &[("10.0.0.3", "c")]),
        answer("4", &[("10.0.0.4", "d")]),
    ];
    let mut book = PeerBook::open(known, true);
    for (id, ip) in [("3", "10.1.0.3"), ("5", "10.1.0.5"), ("1", "10.1.0.1"), ("3", "10.2.0.3")] {
        let peer = answer(id, &[(ip, "m")]);
        let same: Vec<bool> = book.peers.iter().map(|p| p.id == peer.id).collect();
        book.receive(peer, &same, 0);
    }
    let ids: Vec<&str> = book.peers.iter().map(|p| p.id.as_str()).collect();
    assert_eq!(ids, vec!["3", "1", "5", "2", "4"]);
    let online: Vec<bool> = book.peers.iter().map(|p| p.online).collect();
    assert_eq!(online, vec![true, true, true, false, false]);
    assert_eq!(book.peers[0].ip_mac.len(), 2);
    assert_eq!(book.peers[0].ip_mac.ip(0), "10.2.0.3");
    assert_eq!(book.peers[0].ip_mac.ip(1), "10.1.0.3");
    assert_eq!(book.peers[1].ip_mac.len(), 1);
    assert_eq!(book.peers[1].ip_mac.ip(0), "10.1.0.1");
    assert_eq!(book.peers[3].ip_mac.ip(0), "10.0.0.2");
}

#[test]
fn an_address_that_is_known_keeps_its_place() {
    let mut list = IpMacList::new();
    list.insert("a".to_owned(), "1".to_owned());
    list.insert("b".to_owned(), "2".to_owned());
    list.insert("a".to_owned(), "3".to_owned());
    assert_eq!(list.len(), 2);
    assert_eq!(list.ip(0), "a");
    assert_eq!(list.mac(0), "3");
    assert_eq!(list.mac(1), "2");
}

#[test]
fn sleeping_peers_are_woken_from_every_address() {
    let interfaces = vec![
        adapter("a", Ipv4Addr::new(10, 0, 0, 1), Some([9, 9, 9, 9, 9, 9])),
        adapter("b", Ipv4Addr::new(10, 0, 1, 1), None),
    ];
    let peers = vec![
        answer("6", &[("10.0.0.6", "00:00:00:00:00:06")]),
        answer(
            "7",
            &[
                ("10.0.0.7", "00:1a:2b:3c:4d:5e"),
                ("10.0.0.8", ""),
                ("10.0.0.9", "no hardware address"),
            ],
        ),
        answer("7", &[("10.0.0.10", "00:00:00:00:00:07")]),
    ];
    let packets = send_wol("7", &peers, &interfaces);
    assert_eq!(packets.len(), 2);
    assert_eq!(packets[0].mac, [0x00, 0x1a, 0x2b, 0x3c, 0x4d, 0x5e]);
    assert_eq!(packets[0].from, Ipv4Addr::new(10, 0, 0, 1));
    assert_eq!(packets[1].mac, [0x00, 0x1a, 0x2b, 0x3c, 0x4d, 0x5e]);
    assert_eq!(packets[1].from, Ipv4Addr::new(10, 0, 1, 1));
    assert!(send_wol("8", &peers, &interfaces).is_empty());
}

#[test]
fn a_hardware_address_that_is_announced_wakes_its_peer() {
    for mac in [[0u8; 6], [0xff; 6], [0x0f, 0xf0, 0x09, 0x90, 0xab, 0x10]] {
        let interfaces = vec![adapter("a", Ipv4Addr::new(10, 0, 0, 1), Some(mac))];
        let text = get_mac(IpAddr::V4(Ipv4Addr::new(10, 0, 0, 1)), &interfaces);
        let packets = send_wol("7", &vec![answer("7", &[("10.0.0.7", &text)])], &interfaces);
        assert_eq!(packets.len(), 1);
        assert_eq!(packets[0].mac, mac);
    }
}

#[test]
fn each_hardware_address_is_sent_from_each_address() {
    let interfaces = vec![
        adapter("a", Ipv4Addr::new(10, 0, 0, 1), None),
        adapter("b", Ipv4Addr::new(10, 0, 1, 1), None),
    ];
    let packets = wake_packets(&vec![[1; 6], [2; 6]], &interfaces);
    assert_eq!(packets.len(), 4);
    assert_eq!(packets[1].mac, [1; 6]);
    assert_eq!(packets[1].from, Ipv4Addr::new(10, 0, 1, 1));
    assert_eq!(packets[2].mac, [2; 6]);
    assert_eq!(packets[2].from, Ipv4Addr::new(10, 0, 0, 1));
}
