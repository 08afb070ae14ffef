use luoda::direct_server::{
    direct_server, ensure_direct_port, listening_settings, listens_on, set_direct_access_status,
    DirectAction, DirectEvent, DirectPort, DirectServer, DirectStatus, MappingAction, MappingEvent,
    PortMapping, Setting,
};

fn pairs(settings: &[Setting]) -> Vec<(&str, &str)> {
    settings
        .iter()
        .map(|s| (s.name, s.value.as_str()))
        .collect()
}

#[test]
fn eleven_ports_are_tried_in_turn() {
    let mut port = DirectPort::new();
    for expected in 21118..=21128 {
        assert_eq!(ensure_direct_port(&mut port), expected);
        port.invalidate_direct_port();
    }
    assert_eq!(ensure_direct_port(&mut port), 21118);
}

#[test]
fn a_reset_goes_back_to_the_default_port() {
    let mut port = DirectPort::new();
    port.invalidate_direct_port();
    assert_eq!(port.port, None);
    port.get_direct_port();
    port.invalidate_direct_port();
    port.invalidate_direct_port();
    assert_eq!(port.get_direct_port(), 21120);
    port.reset_direct_port();
    assert_eq!(port.get_direct_port(), 21118);
}

#[test]
fn a_state_is_written_when_it_changes() {
    assert!(set_direct_access_status("listening", DirectStatus::Listening).is_empty());
    assert_eq!(
        pairs(&set_direct_access_status("starting", DirectStatus::Listening)),
        vec![("direct-access-status", "listening")]
    );
    assert_eq!(
        pairs(&set_direct_access_status("listening", DirectStatus::Error)),
        vec![
            ("direct-access-status", "error"),
            ("direct-access-public-port", ""),
            ("upnp-status", "error"),
        ]
    );
    assert_eq!(
        pairs(&set_direct_access_status("", DirectStatus::Starting))[0],
        ("direct-access-status", "starting")
    );
}

#[test]
fn an_open_port_is_written_down() {
    assert_eq!(
        pairs(&listening_settings(21118, true)),
        vec![
            ("direct-access-port", "21118"),
            ("upnp-status", "pending"),
            ("upnp-error", ""),
            ("direct-access-public-port", ""),
        ]
    );
    assert_eq!(
        pairs(&listening_settings(0, false)),
        vec![("direct-access-port", "0"), ("upnp-status", "unsupported")]
    );
}

#[test]
fn the_listener_runs_through_its_states() {
    let mut server = DirectServer::new();
    let mut port = DirectPort::new();
    let on = DirectEvent::Poll { disabled: false };
    let off = DirectEvent::Poll { disabled: true };

    let step = direct_server(&mut server, &mut port, off);
    assert_eq!(step.status, Some(DirectStatus::Stopped));
    assert_eq!(step.action, DirectAction::Sleep { wait: 1000 });

    let step = direct_server(&mut server, &mut port, on);
    assert_eq!(step.action, DirectAction::Bind { port: 21118 });
    let step = direct_server(&mut server, &mut port, DirectEvent::BindFailed);
    assert_eq!(step.status, Some(DirectStatus::Error));
    assert_eq!(step.action, DirectAction::Sleep { wait: 2000 });

    let step = direct_server(&mut server, &mut port, on);
    assert_eq!(step.action, DirectAction::Bind { port: 21119 });
    let step = direct_server(&mut server, &mut port, DirectEvent::Bound);
    assert_eq!(step.status, Some(DirectStatus::Listening));
    assert_eq!(step.announce, Some(21119));
    assert_eq!(step.action, DirectAction::Poll);

    let step = direct_server(&mut server, &mut port, on);
    assert_eq!(step.status, None);
    assert_eq!(step.action, DirectAction::Accept { limit: 1000 });
    let step = direct_server(&mut server, &mut port, DirectEvent::NoPeer);
    assert_eq!(step.action, DirectAction::Sleep { wait: 100 });
    let step = direct_server(&mut server, &mut port, DirectEvent::Accepted);
    assert_eq!(step.action, DirectAction::Serve);

    let step = direct_server(&mut server, &mut port, off);
    assert_eq!(step.status, Some(DirectStatus::Stopped));
    assert_eq!(step.action, DirectAction::Close);
    let step = direct_server(&mut server, &mut port, on);
    assert_eq!(step.action, DirectAction::Bind { port: 21118 });
}

#[test]
fn a_listener_on_another_port_is_closed() {
    let mut server = DirectServer {
        listening: true,
        port: 21119,
    };
    let mut port = DirectPort::new();
    let step = direct_server(&mut server, &mut port, DirectEvent::Poll { disabled: false });
    assert_eq!(step.action, DirectAction::Close);
    assert!(!server.listening);
}

#[test]
fn the_router_is_asked_three_times() {
    let mut mapping = PortMapping::new(21118);
    let fail = |n: u64| MappingEvent::Failed {
        error: format!("error {n}"),
    };
    let current = || MappingEvent::Checked { current: true };
    assert!(matches!(mapping.step(current()), MappingAction::Ask));
    assert!(matches!(
        mapping.step(fail(1)),
        MappingAction::Wait { seconds: 2 }
    ));
    assert!(matches!(mapping.step(current()), MappingAction::Ask));
    assert!(matches!(
        mapping.step(fail(2)),
        MappingAction::Wait { seconds: 4 }
    ));
    assert!(matches!(mapping.step(current()), MappingAction::Ask));
    assert!(matches!(mapping.step(fail(3)), MappingAction::Check));
    match mapping.step(current()) {
        MappingAction::Finish { settings } => assert_eq!(
            pairs(&settings),
            vec![("upnp-error", "error 3"), ("upnp-status", "fail")]
        ),
        _ => panic!("not finished"),
    }
}

#[test]
fn a_mapping_is_written_down() {
    let mut mapping = PortMapping::new(21118);
    assert!(matches!(
        mapping.step(MappingEvent::Mapped { external: 40_000 }),
        MappingAction::Check
    ));
    match mapping.step(MappingEvent::Checked { current: true }) {
        MappingAction::Finish { settings } => assert_eq!(
            pairs(&settings),
            vec![
                ("direct-access-public-port", "40000"),
                ("upnp-error", ""),
                ("upnp-status", "ok"),
            ]
        ),
        _ => panic!("not finished"),
    }
    assert!(matches!(
        mapping.step(MappingEvent::Checked { current: false }),
        MappingAction::Abandon
    ));
}

#[test]
fn settings_tell_whether_the_listener_is_the_same() {
    assert!(listens_on(21118, "21118", "listening"));
    assert!(!listens_on(21118, "21119", "listening"));
    assert!(!listens_on(21118, "21118", "stopped"));
}
