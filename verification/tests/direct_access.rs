use luoda::addr::{IpAddr, Ipv4Addr};
use luoda::direct_access::{
    choose_lan_ipv4, direct_peer_hosts, hosts_for_ip, is_public_ipv4, lan_candidate_score,
    lan_peer_hosts, LanAddressCandidate,
};
use luoda::lan_peer::{DiscoveryPeer, IpMacList};

fn candidate(
    address: [u8; 4],
    name: &str,
    is_default: bool,
    has_gateway: bool,
    is_physical: bool,
) -> LanAddressCandidate {
    LanAddressCandidate {
        address: Ipv4Addr::new(address[0], address[1], address[2], address[3]),
        name: name.to_owned(),
        is_default,
        has_gateway,
        is_physical,
    }
}

fn known(id: &str, ips: &[&str], online: bool) -> DiscoveryPeer {
    let mut ip_mac = IpMacList::new();
    for ip in ips {
        ip_mac.insert((*ip).to_owned(), String::new());
    }
    DiscoveryPeer {
        id: id.to_owned(),
        ip_mac,
        username: String::new(),
        hostname: String::new(),
        platform: String::new(),
        online,
    }
}

#[test]
fn physical_lan_adapter_beats_virtual_and_vpn_adapters() {
    let candidates = [
        candidate([10, 8, 0, 2], "WireGuard Tunnel", true, true, false),
        candidate([192, 168, 1, 22], "Ethernet", false, true, true),
        candidate([172, 20, 0, 1], "vEthernet (WSL)", false, false, true),
    ];

    assert_eq!(
        choose_lan_ipv4(&candidates),
        Some(Ipv4Addr::new(192, 168, 1, 22))
    );
}

#[test]
fn default_physical_adapter_wins_between_real_adapters() {
    let candidates = [
        candidate([192, 168, 2, 10], "Ethernet 2", false, true, true),
        candidate([10, 16, 1, 20], "Wi-Fi", true, true, true),
    ];

    assert_eq!(
        choose_lan_ipv4(&candidates),
        Some(Ipv4Addr::new(10, 16, 1, 20))
    );
}

#[test]
fn direct_peer_hosts_cover_bare_ip_and_explicit_port() {
    let bare = direct_peer_hosts("192.168.1.8", 21118);
    assert_eq!(bare.first().map(String::as_str), Some("192.168.1.8:21118"));
    assert_eq!(bare.last().map(String::as_str), Some("192.168.1.8:21128"));

    let explicit = direct_peer_hosts("49.113.34.200:21118", 21118);
    assert_eq!(explicit, ["49.113.34.200:21118"]);

    let pasted = direct_peer_hosts(" 49.113.34.200:21118 ", 21118);
    assert_eq!(pasted, ["49.113.34.200:21118"]);

    let explicit_ipv6 = direct_peer_hosts("[2001:db8::8]:21118", 21118);
    assert_eq!(explicit_ipv6, ["[2001:db8::8]:21118"]);

    let bare_ipv6 = direct_peer_hosts("2001:db8::8", 21118);
    assert_eq!(
        bare_ipv6.first().map(String::as_str),
        Some("[2001:db8::8]:21118")
    );
    assert_eq!(
        bare_ipv6.last().map(String::as_str),
        Some("[2001:db8::8]:21128")
    );
    assert!(direct_peer_hosts("123456789", 21118).is_empty());
}

#[test]
fn rejects_non_lan_and_non_public_addresses() {
    let candidates = [candidate([169, 254, 10, 1], "Ethernet", true, true, true)];
    assert_eq!(choose_lan_ipv4(&candidates), None);

    assert!(is_public_ipv4(Ipv4Addr::new(101, 87, 127, 173)));
    assert!(!is_public_ipv4(Ipv4Addr::new(10, 0, 0, 1)));
    assert!(!is_public_ipv4(Ipv4Addr::new(127, 0, 0, 1)));
    assert!(!is_public_ipv4(Ipv4Addr::new(169, 254, 1, 1)));
}

#[test]
fn hosts_for_ip_expands_full_port_range() {
    let hosts = hosts_for_ip(IpAddr::V4(Ipv4Addr::new(192, 168, 31, 70)), 21118);
    assert_eq!(hosts.len(), 11);
    assert_eq!(hosts.first().map(String::as_str), Some("192.168.31.70:21118"));
    assert_eq!(hosts.last().map(String::as_str), Some("192.168.31.70:21128"));
}

#[test]
fn lan_peer_hosts_is_empty_for_unknown_or_empty_id() {
    let none = Vec::new();
    assert!(lan_peer_hosts("", 21118, &none).is_empty());
    assert!(lan_peer_hosts("__luoda_no_such_peer_id__", 21118, &none).is_empty());
    let peers = vec![known("1", &["192.168.1.9"], true)];
    assert!(lan_peer_hosts("", 21118, &peers).is_empty());
    assert!(lan_peer_hosts("__luoda_no_such_peer_id__", 21118, &peers).is_empty());
}

#[test]
fn scores_add_up() {
    assert_eq!(
        lan_candidate_score(&candidate([192, 168, 1, 2], "Ethernet", true, true, true)),
        15_100
    );
    assert_eq!(
        lan_candidate_score(&candidate([10, 0, 0, 2], "tun0", true, true, true)),
        -200
    );
    assert_eq!(
        lan_candidate_score(&candidate([172, 31, 0, 2], "eth0", false, false, false)),
        100
    );
    assert_eq!(
        lan_candidate_score(&candidate([172, 32, 0, 2], "HYPER-V Switch", false, true, false)),
        -450
    );
}

#[test]
fn the_last_of_equal_candidates_is_chosen() {
    let candidates = [
        candidate([192, 168, 1, 2], "eth0", false, true, true),
        candidate([192, 168, 1, 3], "eth1", false, true, true),
    ];
    assert_eq!(
        choose_lan_ipv4(&candidates),
        Some(Ipv4Addr::new(192, 168, 1, 3))
    );
    assert_eq!(choose_lan_ipv4(&[]), None);
}

#[test]
fn ports_stop_at_the_highest() {
    let hosts = hosts_for_ip(IpAddr::V4(Ipv4Addr::new(10, 0, 0, 1)), 65_530);
    assert_eq!(hosts.len(), 6);
    assert_eq!(hosts.last().map(String::as_str), Some("10.0.0.1:65535"));
}

#[test]
fn public_addresses_end_before_multicast() {
    assert!(is_public_ipv4(Ipv4Addr::new(223, 255, 255, 255)));
    assert!(!is_public_ipv4(Ipv4Addr::new(224, 0, 0, 1)));
    assert!(!is_public_ipv4(Ipv4Addr::new(240, 0, 0, 1)));
    assert!(!is_public_ipv4(Ipv4Addr::new(255, 255, 255, 255)));
    assert!(!is_public_ipv4(Ipv4Addr::new(0, 0, 0, 0)));
    assert!(!is_public_ipv4(Ipv4Addr::new(0, 1, 2, 3)));
}

#[test]
fn only_peers_that_answered_have_hosts() {
    let peers = vec![
        known("7", &["192.168.1.9", "127.0.0.1", "0.0.0.0", "no address"], true),
        known("7", &["192.168.1.10"], false),
        known("7", &["192.168.1.9", "fe80::1"], true),
        known("8", &["192.168.1.11"], true),
    ];
    let hosts = lan_peer_hosts(" 7 ", 21118, &peers);
    assert_eq!(hosts.len(), 22);
    assert_eq!(hosts[0], "192.168.1.9:21118");
    assert_eq!(hosts[10], "192.168.1.9:21128");
    assert_eq!(hosts[11], "[fe80::1]:21118");
    assert_eq!(hosts[21], "[fe80::1]:21128");
}

#[test]
fn scopes_and_nonsense_in_given_addresses() {
    assert_eq!(
        direct_peer_hosts("[fe80::1%3]:80", 21118),
        ["[fe80::1%3]:80"]
    );
    assert!(direct_peer_hosts("192.168.1", 21118).is_empty());
    assert!(direct_peer_hosts("192.168.1.8:", 21118).is_empty());
    assert!(direct_peer_hosts("192.168.1.8:65536", 21118).is_empty());
    assert!(direct_peer_hosts("peer.example.com", 21118).is_empty());
    assert!(direct_peer_hosts("", 21118).is_empty());
}
