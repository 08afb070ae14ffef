use luoda::addr::{Ipv4Addr, Ipv6Addr, SocketAddr};
use luoda::direct_server::DirectPort;
use luoda::hole_punching::{
    IntranetEvent, IntranetStep, LastMessage, NatType, OwnNetwork, PunchRequest, PunchStep, PunchWay,
};
use luoda::rendezvous_mediator::RendezvousMediator;

const MILLI: u64 = 1_000_000;

fn v4(a: u8, b: u8, c: u8, d: u8, port: u16) -> SocketAddr {
    SocketAddr::V4 {
        ip: Ipv4Addr::new(a, b, c, d),
        port,
    }
}

fn v6(port: u16) -> SocketAddr {
    SocketAddr::V6 {
        ip: Ipv6Addr {
            s0: 0,
            s1: 0,
            s2: 0,
            s3: 0,
            s4: 0,
            s5: 0,
            s6: 0,
            s7: 1,
        },
        port,
        scope: 0,
    }
}

fn request(addr: SocketAddr) -> PunchRequest {
    PunchRequest {
        addr,
        addr_v6: v4(0, 0, 0, 0, 0),
        nat_type: NatType::Asymmetric,
        udp_port: 0,
        force_relay: false,
    }
}

fn own() -> OwnNetwork {
    OwnNetwork {
        proxy: false,
        nat_type: NatType::Asymmetric,
        disable_tcp_listen: false,
    }
}

fn way(request: PunchRequest, own: OwnNetwork) -> PunchWay {
    let mut last = LastMessage::new(0);
    match RendezvousMediator::handle_punch_hole(&mut last, request, own, 0) {
        PunchStep::Proceed { way, .. } => way,
        PunchStep::Ignore => panic!("taken for a duplicate"),
    }
}

#[test]
fn the_same_peer_within_a_tenth_of_a_second_is_a_duplicate() {
    let mut last = LastMessage::new(0);
    let a = v4(101, 1, 1, 1, 5);
    let b = v4(101, 1, 1, 1, 6);
    assert!(!last.note(a, 0));
    assert!(last.note(a, 99 * MILLI));
    // A duplicate counts too.
    assert!(last.note(a, 198 * MILLI));
    assert!(!last.note(b, 198 * MILLI));
    assert!(!last.note(a, 199 * MILLI));
    assert!(!last.note(a, 299 * MILLI));
}

#[test]
fn peers_on_the_local_network_are_not_sent_to_a_relay() {
    let lan = v4(192, 168, 1, 9, 5);
    let mut r = request(lan);
    r.nat_type = NatType::Symmetric;
    r.force_relay = true;
    let mut o = own();
    o.disable_tcp_listen = true;
    assert_eq!(way(r, o), PunchWay::Tcp { peer: lan });
}

#[test]
fn a_relay_is_used_where_nothing_else_leads_there() {
    let far = v4(101, 1, 1, 1, 5);
    let mut r = request(far);
    assert_eq!(way(r, own()), PunchWay::Tcp { peer: far });
    r.nat_type = NatType::Symmetric;
    assert_eq!(way(r, own()), PunchWay::Relay);
    let mut o = own();
    o.nat_type = NatType::Symmetric;
    assert_eq!(way(request(far), o), PunchWay::Relay);
    let mut o = own();
    o.proxy = true;
    assert_eq!(way(request(far), o), PunchWay::Relay);
    let mut r = request(far);
    r.force_relay = true;
    assert_eq!(way(r, own()), PunchWay::Relay);
    let mut o = own();
    o.disable_tcp_listen = true;
    assert_eq!(way(request(far), o), PunchWay::Relay);
    let mut r = request(far);
    r.udp_port = 7;
    assert_eq!(
        way(r, o),
        PunchWay::Udp {
            peer: v4(101, 1, 1, 1, 7)
        }
    );
    r.udp_port = 65_536 + 9;
    assert_eq!(
        way(r, own()),
        PunchWay::Udp {
            peer: v4(101, 1, 1, 1, 9)
        }
    );
}

#[test]
fn ipv6_is_tried_where_the_peer_has_a_port_for_it() {
    let mut r = request(v4(101, 1, 1, 1, 5));
    r.addr_v6 = v6(80);
    let mut last = LastMessage::new(0);
    assert!(matches!(
        RendezvousMediator::handle_punch_hole(&mut last, r, own(), 0),
        PunchStep::Proceed { ipv6: true, .. }
    ));
    assert_eq!(
        RendezvousMediator::handle_punch_hole(&mut last, r, own(), 0),
        PunchStep::Ignore
    );
    r.force_relay = true;
    assert!(matches!(
        RendezvousMediator::handle_punch_hole(&mut last, r, own(), 100 * MILLI),
        PunchStep::Proceed { ipv6: false, .. }
    ));
}

#[test]
fn the_local_network_is_tried_first() {
    let rz = RendezvousMediator::new("h".to_owned(), true, 0);
    let far = v4(101, 1, 1, 1, 5);
    let near = v4(10, 1, 1, 1, 5);
    let none = v4(0, 0, 0, 0, 0);
    let step = |rz: &RendezvousMediator, addr, addr_v6, proxy, silent| {
        let mut last = LastMessage::new(0);
        rz.handle_intranet(
            &mut last,
            IntranetEvent::Asked {
                addr,
                addr_v6,
                now: 0,
                proxy,
                disable_tcp_listen: silent,
            },
        )
    };
    assert_eq!(
        step(&rz, far, none, false, false),
        IntranetStep::Proceed {
            ipv6: false,
            direct: true
        }
    );
    assert_eq!(
        step(&rz, far, v6(8), false, true),
        IntranetStep::Proceed {
            ipv6: true,
            direct: false
        }
    );
    assert_eq!(
        step(&rz, near, none, false, true),
        IntranetStep::Proceed {
            ipv6: false,
            direct: true
        }
    );
    assert_eq!(
        step(&rz, near, v6(8), true, false),
        IntranetStep::Proceed {
            ipv6: false,
            direct: false
        }
    );
    let over_ipv6 = RendezvousMediator::new("h".to_owned(), false, 0);
    assert_eq!(
        step(&over_ipv6, near, none, false, false),
        IntranetStep::Proceed {
            ipv6: false,
            direct: false
        }
    );
    assert_eq!(step(&rz, none, none, false, false), IntranetStep::Ignore);
}

#[test]
fn a_peer_that_does_not_come_gets_one_relay() {
    let rz = RendezvousMediator::new("h".to_owned(), true, 0);
    let mut last = LastMessage::new(0);
    let mut on = |event| rz.handle_intranet(&mut last, event);
    assert_eq!(on(IntranetEvent::Direct { ok: true }), IntranetStep::Done);
    assert_eq!(on(IntranetEvent::Direct { ok: false }), IntranetStep::Relay);
    assert_eq!(on(IntranetEvent::NotTried), IntranetStep::Relay);
    let next = |direct, came| {
        RendezvousMediator::after_intranet(IntranetStep::Proceed { ipv6: false, direct }, came)
    };
    assert_eq!(next(true, true), Some(IntranetEvent::Direct { ok: true }));
    assert_eq!(next(true, false), Some(IntranetEvent::Direct { ok: false }));
    assert_eq!(next(false, false), Some(IntranetEvent::NotTried));
    for end in [IntranetStep::Ignore, IntranetStep::Done, IntranetStep::Relay] {
        assert_eq!(RendezvousMediator::after_intranet(end, false), None);
    }
}

#[test]
fn only_ipv4_is_announced_as_local_address() {
    let announce = |local| {
        RendezvousMediator::handle_intranet_(
            "7".to_owned(),
            v4(101, 1, 1, 1, 5),
            local,
            "relay".to_owned(),
            "1".to_owned(),
            vec![9],
        )
    };
    let message = announce(v4(192, 168, 1, 2, 4000)).unwrap();
    assert_eq!(message.id, "7");
    assert_eq!(message.socket_addr, v4(101, 1, 1, 1, 5));
    assert_eq!(message.local_addr, v4(192, 168, 1, 2, 4000));
    assert_eq!(message.relay_server, "relay");
    assert_eq!(message.version, "1");
    assert_eq!(message.socket_addr_v6, vec![9]);
    assert!(announce(v6(4000)).is_none());
}

#[test]
fn a_relay_that_is_asked_for_is_not_named_again() {
    let rz = RendezvousMediator::new("h".to_owned(), true, 0);
    let mut last = LastMessage::new(0);
    let mut ask = |now| {
        RendezvousMediator::handle_request_relay(
            &mut last,
            v4(101, 1, 1, 1, 5),
            now,
            vec![1],
            "relay".to_owned(),
            "u".to_owned(),
            true,
        )
    };
    let relay = ask(0).unwrap();
    assert!(ask(50 * MILLI).is_none());
    assert!(!relay.initiate);
    let (response, connection) = rz.create_relay(relay, "7".to_owned(), "1".to_owned());
    assert_eq!(response.socket_addr, vec![1]);
    assert_eq!(response.uuid, "");
    assert_eq!(response.relay_server, "");
    assert_eq!(response.id, None);
    assert_eq!(response.version, "1");
    assert!(response.socket_addr_v6.is_empty());
    assert_eq!(connection.relay_server, "relay");
    assert_eq!(connection.uuid, "u");
    assert!(connection.secure);
    assert!(connection.ipv4);
}

#[test]
fn a_relay_of_its_own_is_named() {
    let rz = RendezvousMediator::new("h".to_owned(), false, 0);
    let relay = RendezvousMediator::own_relay(
        vec![1],
        "relay".to_owned(),
        "u".to_owned(),
        vec![2],
    );
    let (response, connection) = rz.create_relay(relay, "7".to_owned(), "1".to_owned());
    assert_eq!(response.uuid, "u");
    assert_eq!(response.relay_server, "relay");
    assert_eq!(response.id.as_deref(), Some("7"));
    assert_eq!(response.socket_addr_v6, vec![2]);
    assert!(connection.secure);
    assert!(!connection.ipv4);
}

#[test]
fn relays_get_random_identifiers() {
    let make = || RendezvousMediator::new_relay(vec![1], "relay".to_owned(), vec![]).uuid;
    let uuid = make();
    assert_eq!(uuid.len(), 36);
    for (i, c) in uuid.chars().enumerate() {
        if [8, 13, 18, 23].contains(&i) {
            assert_eq!(c, '-');
        } else {
            assert!(c.is_ascii_digit() || ('a'..='f').contains(&c));
        }
    }
    assert_eq!(uuid.as_bytes()[14], b'4');
    assert!(b"89ab".contains(&uuid.as_bytes()[19]));
    assert_ne!(uuid, make());
}

#[test]
fn a_port_is_announced_where_somebody_listens() {
    let mut port = DirectPort::new();
    assert_eq!(RendezvousMediator::announced_port("stopped", &mut port), 0);
    assert_eq!(
        RendezvousMediator::announced_port("listening", &mut port),
        21118
    );
    port.invalidate_direct_port();
    assert_eq!(
        RendezvousMediator::announced_port("listening", &mut port),
        21119
    );
}

#[test]
fn the_message_that_a_hole_was_punched() {
    let sent = RendezvousMediator::punch_hole_sent(
        vec![1],
        "7".to_owned(),
        "relay".to_owned(),
        own(),
        "1".to_owned(),
        vec![2],
        21118,
    );
    assert_eq!(sent.socket_addr, vec![1]);
    assert_eq!(sent.id, "7");
    assert_eq!(sent.relay_server, "relay");
    assert_eq!(sent.nat_type, NatType::Asymmetric);
    assert_eq!(sent.version, "1");
    assert_eq!(sent.socket_addr_v6, vec![2]);
    assert_eq!(sent.upnp_port, 21118);
}

#[test]
fn repeats_are_ten_to_twenty_nine_milliseconds_apart() {
    assert_eq!(RendezvousMediator::punch_udp_hole(0), 10);
    assert_eq!(RendezvousMediator::punch_udp_hole(19), 29);
    assert_eq!(RendezvousMediator::punch_udp_hole(20), 10);
    assert_eq!(RendezvousMediator::punch_udp_hole(u64::MAX), 25);
}
