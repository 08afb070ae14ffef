use luoda::rendezvous_mediator::{
    CheckIfResendPk, PkResult, RegisterStep, RendezvousMediator, RespAction, Round, ServerMessage,
    Service, ServiceEvent, ServiceStep, StartEvent, StartStep, Transport,
};

const SECOND: u64 = 1_000_000_000;
const MILLI: u64 = 1_000_000;

fn mediator(host: &str) -> RendezvousMediator {
    RendezvousMediator::new(host.to_owned(), true, 60_000)
}

fn round() -> Round {
    Round {
        started: 0,
        timeout: 0,
    }
}

fn begin(service: &mut Service, round: &mut Round, now: u64, stopped: bool) -> ServiceStep {
    RendezvousMediator::start_all(
        service,
        round,
        ServiceEvent::Begin {
            now,
            stopped,
            installing: false,
        },
    )
}

#[test]
fn hosts_are_known_by_the_part_before_the_dot() {
    assert_eq!(RendezvousMediator::get_host_prefix("rs-ny.example.com:21116"), "rs-ny");
    assert_eq!(RendezvousMediator::get_host_prefix("192.168.1.8:21116"), "192.168.1.8:21116");
    assert_eq!(RendezvousMediator::get_host_prefix("-5.x"), "-5.x");
    assert_eq!(RendezvousMediator::get_host_prefix("2147483648.x"), "2147483648");
    assert_eq!(RendezvousMediator::get_host_prefix("localhost:21116"), "localhost:21116");
    assert_eq!(RendezvousMediator::get_host_prefix(".x"), "");
    assert_eq!(RendezvousMediator::get_host_prefix(""), "");
    assert_eq!(mediator("a.b").host_prefix, "a");
}

#[test]
fn a_restart_ends_the_round() {
    let mut service = Service::new();
    RendezvousMediator::restart(&mut service);
    assert!(service.should_exit);
    assert!(service.manual_restarted);
    assert_eq!(
        RendezvousMediator::start_all(
            &mut service,
            &mut round(),
            ServiceEvent::Finished { now: 0 }
        ),
        ServiceStep::Sleep { wait: 33 }
    );
}

#[test]
fn rounds_last_eighteen_seconds() {
    let mut service = Service::new();
    let mut r = round();
    service.should_exit = true;
    service.manual_restarted = true;
    service.solving = "a".to_owned();
    assert_eq!(begin(&mut service, &mut r, 5 * SECOND, false), ServiceStep::Serve);
    assert!(!service.should_exit);
    assert!(!service.manual_restarted);
    assert_eq!(service.solving, "");
    assert_eq!(
        RendezvousMediator::start_all(
            &mut service,
            &mut r,
            ServiceEvent::Ended {
                error: Some("timed out".to_owned())
            }
        ),
        ServiceStep::Continue
    );
    assert!(service.should_exit);
    assert_eq!(
        RendezvousMediator::start_all(
            &mut service,
            &mut r,
            ServiceEvent::Finished {
                now: 7 * SECOND + 500 * MILLI
            }
        ),
        ServiceStep::Sleep { wait: 15_000 }
    );
    assert_eq!(
        RendezvousMediator::start_all(
            &mut service,
            &mut r,
            ServiceEvent::Finished { now: 23 * SECOND }
        ),
        ServiceStep::Sleep { wait: 0 }
    );
}

#[test]
fn errors_of_a_restarting_system_shorten_the_round() {
    for error in [
        "No such host is known. (os error 11001)",
        "closed by the remote host. (os error 10054)",
    ] {
        let mut service = Service::new();
        let mut r = round();
        begin(&mut service, &mut r, 0, false);
        RendezvousMediator::start_all(
            &mut service,
            &mut r,
            ServiceEvent::Ended {
                error: Some(error.to_owned()),
            },
        );
        assert_eq!(
            RendezvousMediator::start_all(
                &mut service,
                &mut r,
                ServiceEvent::Finished { now: SECOND }
            ),
            ServiceStep::Sleep { wait: 2_000 }
        );
    }
}

#[test]
fn a_stopped_service_closes_its_connections() {
    let mut service = Service::new();
    service.should_exit = true;
    let mut r = round();
    assert_eq!(
        begin(&mut service, &mut r, 0, true),
        ServiceStep::CloseConnections
    );
    assert!(service.should_exit);
    assert_eq!(
        RendezvousMediator::start_all(
            &mut service,
            &mut r,
            ServiceEvent::Begin {
                now: 0,
                stopped: false,
                installing: true
            }
        ),
        ServiceStep::CloseConnections
    );
}

#[test]
fn listeners_are_started_unless_the_peer_only_calls() {
    let launch = |outgoing_only: bool, stopped: bool, lan_supported: bool| {
        RendezvousMediator::start_all(
            &mut Service::new(),
            &mut round(),
            ServiceEvent::Launch {
                outgoing_only,
                stopped,
                lan_supported,
            },
        )
    };
    assert_eq!(
        launch(false, false, true),
        ServiceStep::Start {
            test_servers: false,
            direct_server: true,
            lan_listener: true
        }
    );
    assert_eq!(
        launch(false, true, false),
        ServiceStep::Start {
            test_servers: true,
            direct_server: true,
            lan_listener: false
        }
    );
    assert_eq!(
        launch(true, true, true),
        ServiceStep::Start {
            test_servers: false,
            direct_server: false,
            lan_listener: false
        }
    );
}

#[test]
fn an_error_of_the_lan_listener_ends_nothing_else() {
    let mut service = Service::new();
    let mut r = round();
    begin(&mut service, &mut r, 0, false);
    assert_eq!(
        RendezvousMediator::start_all(&mut service, &mut r, ServiceEvent::LanListenerFailed),
        ServiceStep::Continue
    );
    assert!(!service.should_exit);
    assert!(!service.manual_restarted);
    assert_eq!(r.timeout, 18_000);
}

#[test]
fn a_peer_that_only_calls_waits_for_the_end() {
    let mut service = Service::new();
    let mut r = round();
    assert_eq!(
        RendezvousMediator::start_all(&mut service, &mut r, ServiceEvent::OutgoingOnly),
        ServiceStep::Sleep { wait: 1_000 }
    );
    service.should_exit = true;
    assert_eq!(
        RendezvousMediator::start_all(&mut service, &mut r, ServiceEvent::OutgoingOnly),
        ServiceStep::Return
    );
}

#[test]
fn what_fails_over_one_transport_is_tried_over_the_other() {
    assert_eq!(
        RendezvousMediator::start(StartEvent::Begin {
            test_tcp: false,
            proxy: false,
            websocket: true,
            udp_disabled: false
        }),
        StartStep::Run {
            transport: Transport::Udp
        }
    );
    assert_eq!(
        RendezvousMediator::start(StartEvent::Begin {
            test_tcp: false,
            proxy: true,
            websocket: false,
            udp_disabled: false
        }),
        StartStep::Run {
            transport: Transport::Tcp
        }
    );
    for (transport, other) in [
        (Transport::Udp, Transport::Tcp),
        (Transport::Tcp, Transport::Udp),
    ] {
        let first = |ok: bool, should_exit: bool| {
            RendezvousMediator::start(StartEvent::First {
                transport,
                ok,
                should_exit,
            })
        };
        assert_eq!(first(true, false), StartStep::Done);
        assert_eq!(first(false, false), StartStep::Run { transport: other });
        assert_eq!(first(false, true), StartStep::Fail);
    }
    assert_eq!(
        RendezvousMediator::start(StartEvent::Second { ok: true }),
        StartStep::Done
    );
    assert_eq!(
        RendezvousMediator::start(StartEvent::Second { ok: false }),
        StartStep::Fail
    );
}

#[test]
fn the_server_asks_for_the_key() {
    let rz = mediator("a");
    let mut service = Service::new();
    let step = rz.handle_resp(
        ServerMessage::RegisterPeerResponse { request_pk: true },
        &mut service,
    );
    assert!(step.answered);
    assert!(!step.confirmed);
    assert!(matches!(step.action, RespAction::RegisterPk));
    let step = rz.handle_resp(
        ServerMessage::RegisterPeerResponse { request_pk: false },
        &mut service,
    );
    assert!(step.answered);
    assert!(step.confirmed);
    assert!(matches!(step.action, RespAction::Nothing));
}

#[test]
fn a_keep_alive_time_holds_once_its_message_is_done() {
    let mut rz = mediator("a");
    let mut service = Service::new();
    let step = rz.handle_resp(
        ServerMessage::RegisterPkResponse {
            result: PkResult::Accepted,
            keep_alive: 30,
        },
        &mut service,
    );
    assert_eq!(step.keep_alive, Some(30_000));
    assert_eq!(rz.keep_alive, 60_000);
    // What was to be sent did not go out.
    rz.resp_done(step.keep_alive, false);
    assert_eq!(rz.keep_alive, 60_000);
    rz.resp_done(step.keep_alive, true);
    assert_eq!(rz.keep_alive, 30_000);
    rz.resp_done(None, true);
    assert_eq!(rz.keep_alive, 30_000);
}

#[test]
fn a_key_that_is_accepted_lets_the_peer_register() {
    let mut rz = mediator("a");
    let mut service = Service::new();
    service.solving = "a".to_owned();
    let step = rz.handle_resp(
        ServerMessage::RegisterPkResponse {
            result: PkResult::Accepted,
            keep_alive: 30,
        },
        &mut service,
    );
    assert!(step.answered);
    assert!(!step.confirmed);
    assert!(matches!(step.action, RespAction::ConfirmKey));
    assert_eq!(service.solving, "");
    rz.resp_done(step.keep_alive, true);
    assert_eq!(rz.keep_alive, 30_000);
    assert_eq!(
        rz.register_peer(&service, true, true),
        RegisterStep::RegisterPeer
    );
    assert_eq!(
        rz.register_peer(&service, true, false),
        RegisterStep::RegisterPk
    );
    assert_eq!(
        rz.register_peer(&service, false, true),
        RegisterStep::RegisterPk
    );
}

#[test]
fn one_server_at_a_time_settles_an_identity() {
    let a = mediator("a");
    let b = mediator("b");
    let mut service = Service::new();
    let mismatch = || ServerMessage::RegisterPkResponse {
        result: PkResult::UuidMismatch,
        keep_alive: 0,
    };
    let step = a.handle_resp(mismatch(), &mut service);
    assert!(matches!(step.action, RespAction::NewIdentity));
    assert_eq!(service.solving, "a");
    assert_eq!(step.keep_alive, None);
    let step = b.handle_resp(mismatch(), &mut service);
    assert!(matches!(step.action, RespAction::Nothing));
    assert_eq!(service.solving, "a");
    assert_eq!(b.register_peer(&service, true, true), RegisterStep::Skip);
    let step = a.handle_resp(mismatch(), &mut service);
    assert!(matches!(step.action, RespAction::NewIdentity));
    assert_eq!(
        a.register_peer(&service, true, true),
        RegisterStep::RegisterPeer
    );
}

#[test]
fn other_messages_go_their_way() {
    let rz = mediator("a");
    let mut service = Service::new();
    let step = rz.handle_resp(ServerMessage::PunchHole, &mut service);
    assert!(!step.answered);
    assert!(matches!(step.action, RespAction::PunchHole));
    let step = rz.handle_resp(ServerMessage::RequestRelay, &mut service);
    assert!(matches!(step.action, RespAction::RequestRelay));
    let step = rz.handle_resp(ServerMessage::FetchLocalAddr, &mut service);
    assert!(matches!(step.action, RespAction::FetchLocalAddr));
    let step = rz.handle_resp(ServerMessage::Other, &mut service);
    assert!(matches!(step.action, RespAction::Nothing));
    let step = rz.handle_resp(
        ServerMessage::RegisterPkResponse {
            result: PkResult::Other,
            keep_alive: -1,
        },
        &mut service,
    );
    assert!(step.answered);
    assert!(matches!(step.action, RespAction::Nothing));
    assert_eq!(step.keep_alive, None);
}

#[test]
fn a_new_list_of_servers_restarts_the_service() {
    let rz = mediator("a");
    let mut service = Service::new();
    let step = rz.handle_resp(
        ServerMessage::ConfigureUpdate {
            rendezvous_servers: vec!["a".to_owned(), "b".to_owned(), "".to_owned()],
            serial: 7,
        },
        &mut service,
    );
    match step.action {
        RespAction::Configure {
            rendezvous_servers,
            serial,
        } => {
            assert_eq!(rendezvous_servers, "a,b,");
            assert_eq!(serial, 7);
        }
        _ => panic!("no list of servers"),
    }
    let before = vec!["a".to_owned(), "b".to_owned()];
    let after = vec!["a".to_owned(), "c".to_owned()];
    assert!(!RendezvousMediator::servers_changed(&before, &before, &mut service));
    assert!(!service.should_exit);
    assert!(RendezvousMediator::servers_changed(&before, &after, &mut service));
    assert!(service.should_exit);
    assert!(service.manual_restarted);
    let mut service = Service::new();
    let shorter = vec!["a".to_owned()];
    assert!(RendezvousMediator::servers_changed(&before, &shorter, &mut service));
}

#[test]
fn relay_servers_are_taken_in_turn() {
    let relay = |configured: &str, unusable: bool, provided: &str| {
        RendezvousMediator::get_relay_server(
            configured.to_owned(),
            unusable,
            provided.to_owned(),
            "host:21117".to_owned(),
        )
    };
    assert_eq!(relay("mine", false, "theirs"), "mine");
    assert_eq!(relay("localhost", true, "theirs"), "theirs");
    assert_eq!(relay("", false, "theirs"), "theirs");
    assert_eq!(relay("", false, ""), "host:21117");
    assert_eq!(relay("localhost", true, ""), "host:21117");
}

#[test]
fn messages_of_a_registration() {
    let pk = RendezvousMediator::register_pk("7".to_owned(), vec![1], vec![2, 3], true);
    assert_eq!(pk.id, "7");
    assert_eq!(pk.uuid, vec![1]);
    assert_eq!(pk.pk, vec![2, 3]);
    assert!(pk.no_register_device);
    let peer = RendezvousMediator::register_peer_tcp("7".to_owned(), 3);
    assert_eq!(peer.id, "7");
    assert_eq!(peer.serial, 3);
}

#[test]
fn a_key_that_changed_after_it_was_sent_is_sent_again() {
    let check = CheckIfResendPk::new(Some(vec![1, 2]));
    let mut service = Service::new();
    assert!(!check.must_resend(&Some(vec![3, 4]), &service));
    RendezvousMediator::register_pk_sent(&mut service);
    assert!(service.sent_register_pk);
    assert!(check.must_resend(&Some(vec![3, 4]), &service));
    assert!(check.must_resend(&Some(vec![1]), &service));
    assert!(check.must_resend(&None, &service));
    assert!(!check.must_resend(&Some(vec![1, 2]), &service));
    assert!(!CheckIfResendPk::new(None).must_resend(&None, &service));
}
