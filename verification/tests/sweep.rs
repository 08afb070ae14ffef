use luoda::adapter::{Interface, Ipv4Net};
use luoda::addr::Ipv4Addr;
use luoda::sweep::{
    extra_sweep_subnets, parse_sweep_subnets, sweep_targets_in, unicast_sweep_plan, SweepClock,
    EXTRA_SWEEP_SUBNET_LIMIT,
};

fn adapter(name: &str, ipv4: &[(Ipv4Addr, u8)]) -> Interface {
    let mut nets = Vec::new();
    for (addr, prefix_len) in ipv4 {
        nets.push(Ipv4Net {
            addr: *addr,
            prefix_len: *prefix_len,
        });
    }
    Interface {
        name: name.to_owned(),
        ipv4: nets,
        ipv6: Vec::new(),
        mac: None,
    }
}

#[test]
fn sweep_subnets_parses_common_forms() {
    let got = parse_sweep_subnets("192.168.1.0/24, 10.0.0.0/16;172.16.5.0/24");
    assert_eq!(
        got,
        vec![
            (Ipv4Addr::new(192, 168, 1, 0), 24),
            (Ipv4Addr::new(10, 0, 0, 0), 16),
            (Ipv4Addr::new(172, 16, 5, 0), 24),
        ]
    );
}

#[test]
fn sweep_subnets_skips_garbage_without_losing_the_rest() {
    let got = parse_sweep_subnets("192.168.1.0/24, oops, 10.0.0.0, 192.168.2.0/33,10.1.0.0/24");
    assert_eq!(
        got,
        vec![
            (Ipv4Addr::new(192, 168, 1, 0), 24),
            (Ipv4Addr::new(10, 1, 0, 0), 24),
        ]
    );
}

#[test]
fn sweep_subnets_empty_by_default_and_capped() {
    assert!(parse_sweep_subnets("").is_empty());
    assert!(parse_sweep_subnets("   ").is_empty());
    let many = (0..20)
        .map(|i| format!("10.{i}.0.0/24"))
        .collect::<Vec<_>>()
        .join(",");
    assert_eq!(parse_sweep_subnets(&many).len(), EXTRA_SWEEP_SUBNET_LIMIT);
}

#[test]
fn sweep_targets_are_bounded_and_exclude_network_and_broadcast() {
    let targets = sweep_targets_in(Ipv4Addr::new(192, 168, 1, 99), 24);
    assert_eq!(targets.len(), 254);
    assert_eq!(targets.first().unwrap(), &Ipv4Addr::new(192, 168, 1, 1));
    assert_eq!(targets.last().unwrap(), &Ipv4Addr::new(192, 168, 1, 254));
    // A wider network is not swept farther.
    assert_eq!(sweep_targets_in(Ipv4Addr::new(10, 0, 0, 7), 16).len(), 254);
    // Two hosts are all that /30 leaves.
    assert_eq!(
        sweep_targets_in(Ipv4Addr::new(10, 0, 0, 4), 30),
        vec![Ipv4Addr::new(10, 0, 0, 5), Ipv4Addr::new(10, 0, 0, 6)]
    );
}

#[test]
fn extra_sweep_subnets_is_bounded() {
    for option in ["", "10.0.0.0/8 10.0.0.0/30", "10.0.0.0/7 10.0.0.0/31 10.0.0.0/20"] {
        let got = extra_sweep_subnets(option);
        assert!(got.len() <= EXTRA_SWEEP_SUBNET_LIMIT);
        assert!(got.iter().all(|(_, prefix)| (8..=30).contains(prefix)));
    }
    assert!(parse_sweep_subnets("").is_empty());
}

#[test]
fn prefixes_from_eight_to_thirty_are_taken() {
    assert_eq!(parse_sweep_subnets("10.0.0.0/8").len(), 1);
    assert_eq!(parse_sweep_subnets("10.0.0.0/30").len(), 1);
    assert_eq!(parse_sweep_subnets("10.0.0.0/+9"), vec![(Ipv4Addr::new(10, 0, 0, 0), 9)]);
    assert!(parse_sweep_subnets("10.0.0.0/7").is_empty());
    assert!(parse_sweep_subnets("10.0.0.0/31").is_empty());
    assert!(parse_sweep_subnets("10.0.0.0/24/1").is_empty());
    assert!(parse_sweep_subnets("10.0.0/24").is_empty());
    assert!(parse_sweep_subnets("10.0.0.0/").is_empty());
}

#[test]
fn the_smallest_networks_have_no_hosts() {
    assert!(sweep_targets_in(Ipv4Addr::new(10, 0, 0, 4), 31).is_empty());
    assert!(sweep_targets_in(Ipv4Addr::new(10, 0, 0, 4), 32).is_empty());
    assert_eq!(
        sweep_targets_in(Ipv4Addr::new(255, 255, 255, 255), 30),
        vec![Ipv4Addr::new(255, 255, 255, 253), Ipv4Addr::new(255, 255, 255, 254)]
    );
    assert_eq!(
        sweep_targets_in(Ipv4Addr::new(200, 1, 2, 3), 1)[0],
        Ipv4Addr::new(128, 0, 0, 1)
    );
}

#[test]
fn own_networks_are_swept_without_this_host() {
    let interfaces = vec![
        adapter("eth0", &[(Ipv4Addr::new(192, 168, 1, 7), 16)]),
        adapter("docker0", &[(Ipv4Addr::new(172, 17, 0, 1), 16)]),
        adapter("wan", &[(Ipv4Addr::new(101, 2, 3, 4), 24)]),
        adapter("eth1", &[(Ipv4Addr::new(10, 0, 0, 5), 30)]),
    ];
    let plan = unicast_sweep_plan(&interfaces, "");
    assert_eq!(plan.len(), 2);
    assert_eq!(plan[0].local, Ipv4Addr::new(192, 168, 1, 7));
    assert_eq!(plan[0].targets.len(), 253);
    assert!(!plan[0].targets.contains(&Ipv4Addr::new(192, 168, 1, 7)));
    assert_eq!(plan[1].local, Ipv4Addr::new(10, 0, 0, 5));
    assert_eq!(plan[1].targets, vec![Ipv4Addr::new(10, 0, 0, 6)]);
}

#[test]
fn listed_networks_are_added_once() {
    let interfaces = vec![adapter("eth0", &[(Ipv4Addr::new(192, 168, 31, 7), 24)])];
    let plan = unicast_sweep_plan(
        &interfaces,
        "192.168.31.0/24, 192.168.1.0/24, 192.168.1.9/24",
    );
    assert_eq!(plan.len(), 2);
    assert_eq!(plan[1].local, Ipv4Addr::new(0, 0, 0, 0));
    assert_eq!(plan[1].targets.len(), 254);
    assert_eq!(plan[1].targets[0], Ipv4Addr::new(192, 168, 1, 1));
}

#[test]
fn sweeps_keep_their_distance() {
    let mut clock = SweepClock { last: 0 };
    assert!(clock.sweep_due(1_000));
    assert!(!clock.sweep_due(1_000));
    assert!(!clock.sweep_due(1_044));
    assert!(clock.sweep_due(1_045));
    assert_eq!(clock.last, 1_045);
    // A clock that was set back does not sweep.
    assert!(!clock.sweep_due(500));
}
