use luoda::registration::{
    Datagram, Frame, TcpEvent, TcpFailure, TcpSession, TcpStep, UdpEvent, UdpFailure, UdpSession,
    UdpStep,
};
use luoda::rendezvous_mediator::RendezvousMediator;

const SECOND: u64 = 1_000_000_000;
const MILLI: u64 = 1_000_000;

fn tick(session: &mut UdpSession, now: u64, backoff: bool) -> UdpStep {
    RendezvousMediator::start_udp(
        session,
        UdpEvent::Tick {
            now,
            should_exit: false,
            backoff,
        },
    )
}

fn answered(session: &mut UdpSession, now: u64) -> UdpStep {
    RendezvousMediator::start_udp(
        session,
        UdpEvent::Answered {
            now,
            confirmed: true,
        },
    )
}

fn key_answered(session: &mut UdpSession, now: u64) -> UdpStep {
    RendezvousMediator::start_udp(
        session,
        UdpEvent::Answered {
            now,
            confirmed: false,
        },
    )
}

#[test]
fn udp_gives_up_on_the_fourth_timeout() {
    let mut s = UdpSession::new();
    let none = UdpStep::Register { latency_first: None };
    let slow = UdpStep::Register {
        latency_first: Some(0),
    };
    assert_eq!(tick(&mut s, 0, false), none);
    assert_eq!(tick(&mut s, 2_999 * MILLI, false), UdpStep::Nothing);
    assert_eq!(tick(&mut s, 3 * SECOND, false), none);
    assert_eq!(tick(&mut s, 6 * SECOND, false), slow);
    assert_eq!(tick(&mut s, 9 * SECOND, false), slow);
    assert_eq!(
        tick(&mut s, 12 * SECOND, false),
        UdpStep::Fail {
            failure: UdpFailure::TimedOut { attempts: 4 }
        }
    );
}

#[test]
fn waits_grow_with_backoff() {
    let mut s = UdpSession::new();
    tick(&mut s, 0, true);
    assert_eq!(s.reg_timeout, 3_000);
    tick(&mut s, 3 * SECOND, true);
    assert_eq!(s.reg_timeout, 6_000);
    assert_eq!(tick(&mut s, 8 * SECOND, true), UdpStep::Nothing);
    tick(&mut s, 9 * SECOND, true);
    assert_eq!(s.reg_timeout, 9_000);
}

#[test]
fn an_answer_sets_a_session_back() {
    let mut s = UdpSession::new();
    tick(&mut s, 0, true);
    tick(&mut s, 3 * SECOND, true);
    tick(&mut s, 9 * SECOND, true);
    assert_eq!(s.fails, 2);
    assert_eq!(
        answered(&mut s, 9 * SECOND + 20 * MILLI),
        UdpStep::StoreLatency { latency: 20_000 }
    );
    assert_eq!(s.fails, 0);
    assert_eq!(s.reg_timeout, 3_000);
}

#[test]
fn a_peer_that_recovers_registers_again_after_five_seconds() {
    let none = UdpStep::Register { latency_first: None };
    let mut s = UdpSession::new();
    assert!(!s.recovering);
    tick(&mut s, 0, false);
    tick(&mut s, 3 * SECOND, false);
    assert_eq!(s.fails, 1);
    answered(&mut s, 4 * SECOND);
    assert!(s.recovering);
    assert_eq!(tick(&mut s, 9 * SECOND - MILLI, false), UdpStep::Nothing);
    assert_eq!(tick(&mut s, 9 * SECOND, false), none);
    // An answer without a failure before it ends the recovery.
    answered(&mut s, 10 * SECOND);
    assert!(!s.recovering);
    assert_eq!(tick(&mut s, 25 * SECOND - MILLI, false), UdpStep::Nothing);
    assert_eq!(tick(&mut s, 25 * SECOND, false), none);
}

#[test]
fn an_accepted_key_alone_does_not_confirm_a_registration() {
    let none = UdpStep::Register { latency_first: None };
    let mut s = UdpSession::new();
    tick(&mut s, 0, false);
    key_answered(&mut s, SECOND);
    assert!(!s.confirmed);
    assert_eq!(tick(&mut s, 6 * SECOND - MILLI, false), UdpStep::Nothing);
    assert_eq!(tick(&mut s, 6 * SECOND, false), none);
    // Confirmed now, and nothing failed before.
    answered(&mut s, 7 * SECOND);
    assert!(s.confirmed);
    assert_eq!(tick(&mut s, 22 * SECOND - MILLI, false), UdpStep::Nothing);
    assert_eq!(tick(&mut s, 22 * SECOND, false), none);
}

#[test]
fn an_accepted_key_does_not_end_a_recovery() {
    let none = UdpStep::Register { latency_first: None };
    let mut s = UdpSession::new();
    tick(&mut s, 0, false);
    tick(&mut s, 3 * SECOND, false);
    key_answered(&mut s, 4 * SECOND);
    assert_eq!(s.fails, 0);
    assert!(s.failed);
    answered(&mut s, 5 * SECOND);
    assert!(!s.failed);
    assert!(s.recovering);
    assert_eq!(tick(&mut s, 10 * SECOND - MILLI, false), UdpStep::Nothing);
    assert_eq!(tick(&mut s, 10 * SECOND, false), none);
}

#[test]
fn a_peer_that_never_failed_registers_every_fifteen_seconds() {
    let mut s = UdpSession::new();
    tick(&mut s, 0, false);
    answered(&mut s, SECOND);
    assert_eq!(tick(&mut s, 16 * SECOND - MILLI, false), UdpStep::Nothing);
    assert_eq!(
        tick(&mut s, 16 * SECOND, false),
        UdpStep::Register { latency_first: None }
    );
}

#[test]
fn an_unanswered_server_has_latency_minus_one() {
    assert_eq!(UdpFailure::TimedOut { attempts: 4 }.latency(), Some(-1));
    assert_eq!(UdpFailure::ReceiveFailed.latency(), None);
    assert_eq!(UdpFailure::SocketClosed.latency(), None);
}

#[test]
fn latencies_are_averaged() {
    let mut s = UdpSession::new();
    tick(&mut s, 0, false);
    assert_eq!(
        answered(&mut s, 30 * MILLI),
        UdpStep::StoreLatency { latency: 30_000 }
    );
    // 30_000 / 30 + 30_000 * 29 / 30: not worth writing down.
    tick(&mut s, 20 * SECOND, false);
    assert_eq!(answered(&mut s, 20 * SECOND + 30 * MILLI), UdpStep::Nothing);
    assert_eq!(s.ema_latency, 30_000);
    // 900_000 / 30 + 29_000.
    tick(&mut s, 40 * SECOND, false);
    assert_eq!(
        answered(&mut s, 40 * SECOND + 900 * MILLI),
        UdpStep::StoreLatency { latency: 59_000 }
    );
    // More than a second is not believed.
    tick(&mut s, 60 * SECOND, false);
    assert_eq!(answered(&mut s, 61 * SECOND + MILLI), UdpStep::Nothing);
    assert_eq!(s.ema_latency, 59_000);
    assert_eq!(s.old_latency, 59_000);
}

#[test]
fn an_answer_that_was_not_asked_for_has_no_latency() {
    let mut s = UdpSession::new();
    assert_eq!(
        answered(&mut s, SECOND),
        UdpStep::StoreLatency { latency: 0 }
    );
}

#[test]
fn datagrams_are_handled_by_what_they_are() {
    let mut s = UdpSession::new();
    let cases = [
        (Datagram::Message, UdpStep::Handle),
        (Datagram::Unreadable, UdpStep::Nothing),
        (
            Datagram::Failed,
            UdpStep::Fail {
                failure: UdpFailure::ReceiveFailed,
            },
        ),
        (
            Datagram::Closed,
            UdpStep::Fail {
                failure: UdpFailure::SocketClosed,
            },
        ),
    ];
    for (datagram, step) in cases {
        assert_eq!(
            RendezvousMediator::start_udp(&mut s, UdpEvent::Received { datagram }),
            step
        );
    }
    assert_eq!(
        RendezvousMediator::start_udp(
            &mut s,
            UdpEvent::Tick {
                now: 0,
                should_exit: true,
                backoff: false
            }
        ),
        UdpStep::Stop
    );
}

#[test]
fn tcp_registers_every_fifteen_seconds() {
    let rz = RendezvousMediator::new("h".to_owned(), true, 60_000);
    let mut s = TcpSession::new(0);
    let at = |now: u64| TcpEvent::Tick {
        now,
        should_exit: false,
    };
    assert_eq!(rz.start_tcp(&mut s, at(0)), TcpStep::Register);
    assert_eq!(
        rz.start_tcp(&mut s, TcpEvent::Registered { now: SECOND }),
        TcpStep::Nothing
    );
    assert_eq!(rz.start_tcp(&mut s, at(15 * SECOND)), TcpStep::Nothing);
    assert_eq!(rz.start_tcp(&mut s, at(16 * SECOND)), TcpStep::Register);
    assert_eq!(
        rz.start_tcp(&mut s, TcpEvent::Answered { now: 2 * SECOND }),
        TcpStep::StoreLatency { latency: 1_000_000 }
    );
    assert_eq!(
        rz.start_tcp(
            &mut s,
            TcpEvent::Tick {
                now: 0,
                should_exit: true
            }
        ),
        TcpStep::Stop
    );
}

#[test]
fn tcp_times_out_when_the_server_is_silent() {
    let rz = RendezvousMediator::new("h".to_owned(), true, 20_000);
    let mut s = TcpSession::new(0);
    s.last_sent = Some(30 * SECOND);
    let at = |now: u64| TcpEvent::Tick {
        now,
        should_exit: false,
    };
    assert_eq!(rz.start_tcp(&mut s, at(30 * SECOND)), TcpStep::Nothing);
    assert_eq!(
        rz.start_tcp(&mut s, at(30 * SECOND + MILLI)),
        TcpStep::Fail {
            failure: TcpFailure::TimedOut
        }
    );
    // Even a frame of no bytes is a sign of life.
    assert_eq!(
        rz.start_tcp(
            &mut s,
            TcpEvent::Received {
                now: 30 * SECOND,
                frame: Frame::Empty
            }
        ),
        TcpStep::Heartbeat
    );
    assert_eq!(rz.start_tcp(&mut s, at(44 * SECOND)), TcpStep::Nothing);
}

#[test]
fn frames_are_handled_by_what_they_are() {
    let rz = RendezvousMediator::new("h".to_owned(), true, 20_000);
    let mut s = TcpSession::new(0);
    let cases = [
        (Frame::Message, TcpStep::Handle),
        (
            Frame::Unreadable,
            TcpStep::Fail {
                failure: TcpFailure::Unreadable,
            },
        ),
        (
            Frame::Failed,
            TcpStep::Fail {
                failure: TcpFailure::ReceiveFailed,
            },
        ),
        (
            Frame::Closed,
            TcpStep::Fail {
                failure: TcpFailure::ResetByPeer,
            },
        ),
    ];
    for (frame, step) in cases {
        assert_eq!(
            rz.start_tcp(&mut s, TcpEvent::Received { now: 5, frame }),
            step
        );
        assert_eq!(s.last_recv, 5);
    }
    assert_eq!(
        rz.start_tcp(&mut s, TcpEvent::Answered { now: 9 }),
        TcpStep::StoreLatency { latency: 0 }
    );
}
