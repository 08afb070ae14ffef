//! When a registration is sent, repeated and given up, said in terms of what was
//! sent and what came back.

use vstd::prelude::*;

use crate::addr_text;
use crate::registration;
use crate::registration::{
    Datagram, Frame, TcpEvent, TcpFailure, TcpSession, TcpStep, UdpEvent, UdpFailure, UdpSession,
    UdpStep,
};
use crate::rendezvous_mediator;
use crate::rendezvous_mediator::{
    RendezvousMediator, Round, ServerMessage, Service, StartEvent, StartStep, Transport,
};
use crate::text;
use crate::text_laws;

verus! {

// ---------------------------------------------------------------------------
// UDP
// ---------------------------------------------------------------------------

/// A registration that had no answer for as long as the session waits is sent again
/// at the next tick and counted as a failure, whatever came before: whether the
/// server ever confirmed the peer or not. The fourth failure in a row ends the
/// session; from the second on, the server's latency is written down as 0. Where
/// waits are to grow, the next one is three seconds longer, up to thirty.
pub proof fn law_unanswered_registrations_are_repeated(
    session: UdpSession,
    sent: u64,
    now: u64,
    backoff: bool,
)
    requires
        0 <= session.fails <= 3,
        3_000 <= session.reg_timeout <= 30_000,
        session.last_sent == Some(sent),
        sent <= now,
        (now - sent) / 1_000_000 >= session.reg_timeout,
    ensures
        ({
            let tick = UdpEvent::Tick { now, should_exit: false, backoff };
            let step = session.step_on(tick);
            let next = session.after(tick);
            &&& session.fails == 0 ==> step == (UdpStep::Register { latency_first: None })
            &&& 1 <= session.fails <= 2 ==> step == (UdpStep::Register { latency_first: Some(0) })
            &&& session.fails == 3 ==> step == (UdpStep::Fail {
                failure: UdpFailure::TimedOut { attempts: 4 },
            })
            &&& session.fails <= 2 ==> {
                &&& next.fails == session.fails + 1
                &&& next.failed
                &&& next.last_sent == Some(now)
                &&& session.fails == 0 ==> next.old_latency == session.old_latency
                &&& session.fails >= 1 ==> next.old_latency == 0
                &&& backoff && session.reg_timeout < 30_000 ==> next.reg_timeout
                    == session.reg_timeout + 3_000
                &&& !backoff || session.reg_timeout == 30_000 ==> next.reg_timeout
                    == session.reg_timeout
                &&& next.confirmed == session.confirmed
                &&& next.recovering == session.recovering
                &&& next.last_resp == session.last_resp
                &&& next.ema_latency == session.ema_latency
            }
        }),
{
}

/// While a registration waits for its answer, ticks do nothing.
pub proof fn law_waiting_registrations_are_left_alone(
    session: UdpSession,
    sent: u64,
    now: u64,
    backoff: bool,
)
    requires
        session.last_sent == Some(sent),
        session.reg_timeout >= 3_000,
        now < sent || (now - sent) / 1_000_000 < session.reg_timeout,
    ensures
        session.step_on(UdpEvent::Tick { now, should_exit: false, backoff }) == UdpStep::Nothing,
        session.after(UdpEvent::Tick { now, should_exit: false, backoff }) == session,
{
}

/// A peer that never had an answer registers at the first tick.
pub proof fn law_first_registration_is_sent_at_once(session: UdpSession, now: u64, backoff: bool)
    requires
        session.fails <= 3,
        session.last_sent is None,
        session.last_resp is None,
    ensures
        session.step_on(UdpEvent::Tick { now, should_exit: false, backoff }) == (
        UdpStep::Register { latency_first: None }),
        session.after(UdpEvent::Tick { now, should_exit: false, backoff }) == (UdpSession {
            last_sent: Some(now),
            ..session
        }),
{
}

/// A peer that had its answer registers again fifteen seconds after it, and not
/// before; five seconds, where the server never confirmed it, a registration failed
/// since, or one had failed when it did. Nothing else changes by that.
pub proof fn law_answered_peers_register_in_intervals(
    session: UdpSession,
    heard: u64,
    now: u64,
    backoff: bool,
)
    requires
        session.fails <= 3,
        session.last_sent is None,
        session.last_resp == Some(heard),
    ensures
        ({
            let tick = UdpEvent::Tick { now, should_exit: false, backoff };
            let step = session.step_on(tick);
            let wait = if heard <= now {
                (now - heard) / 1_000_000
            } else {
                0
            };
            let healthy = session.confirmed && !session.failed && !session.recovering;
            &&& healthy && wait < 15_000 ==> step == UdpStep::Nothing
            &&& healthy && wait >= 15_000 ==> step == (UdpStep::Register { latency_first: None })
            &&& !healthy && wait < 5_000 ==> step == UdpStep::Nothing
            &&& !healthy && wait >= 5_000 ==> step == (UdpStep::Register { latency_first: None })
            &&& session.after(tick) == if step == UdpStep::Nothing {
                session
            } else {
                UdpSession { last_sent: Some(now), ..session }
            }
        }),
{
}

/// An answer ends the wait and the row of failures, and is remembered. Only one that
/// confirms the registration makes the peer confirmed and settles earlier failures.
pub proof fn law_answers_end_the_wait(session: UdpSession, now: u64, confirmed: bool)
    ensures
        ({
            let next = session.after(UdpEvent::Answered { now, confirmed });
            &&& next.last_sent is None
            &&& next.last_resp == Some(now)
            &&& next.fails == 0
            &&& next.reg_timeout == 3_000
            &&& confirmed ==> next.confirmed && !next.failed && next.recovering == session.failed
            &&& !confirmed ==> next.confirmed == session.confirmed && next.failed == session.failed
                && next.recovering == session.recovering
        }),
{
}

/// The latency of an answer is the time since its registration was sent. More than a
/// second is not believed and changes nothing. The first that is believed is taken as
/// it is; every other moves the mean by a thirtieth.
pub proof fn law_latency_is_the_time_to_the_answer(
    session: UdpSession,
    sent: u64,
    now: u64,
    confirmed: bool,
)
    requires
        0 <= session.ema_latency <= 1_000_000,
        session.last_sent == Some(sent),
    ensures
        ({
            let event = UdpEvent::Answered { now, confirmed };
            let next = session.after(event);
            let micros = if sent <= now {
                (now - sent) / 1_000
            } else {
                0
            };
            &&& micros > 1_000_000 ==> {
                &&& session.step_on(event) == UdpStep::Nothing
                &&& next.ema_latency == session.ema_latency
                &&& next.old_latency == session.old_latency
            }
            &&& micros <= 1_000_000 && session.ema_latency == 0 ==> next.ema_latency == micros
            &&& micros <= 1_000_000 && session.ema_latency > 0 ==> next.ema_latency == micros / 30
                + session.ema_latency * 29 / 30
            &&& 0 <= next.ema_latency <= 1_000_000
        }),
{
}

/// An answer that nothing was sent for has no latency, and leaves the mean all but as
/// it was.
pub proof fn law_unasked_answers_have_no_latency(session: UdpSession, now: u64, confirmed: bool)
    requires
        0 <= session.ema_latency <= 1_000_000,
        session.last_sent is None,
    ensures
        session.after(UdpEvent::Answered { now, confirmed }).ema_latency == session.ema_latency * 29
            / 30,
{
}

/// What is written down of the latency is the mean, and only where nothing was
/// written yet or it is off by more than a fifth of the mean and more than three
/// milliseconds; and what is remembered as written is what was.
pub proof fn law_latency_is_written_when_it_changed(
    session: UdpSession,
    now: u64,
    confirmed: bool,
)
    requires
        0 <= session.ema_latency <= 1_000_000,
        0 <= session.old_latency <= 1_000_000,
        session.last_sent matches Some(sent) ==> now < sent || (now - sent) / 1_000 <= 1_000_000,
    ensures
        ({
            let event = UdpEvent::Answered { now, confirmed };
            let step = session.step_on(event);
            let next = session.after(event);
            let mean = next.ema_latency;
            let off = if mean > session.old_latency {
                mean - session.old_latency
            } else {
                session.old_latency - mean
            };
            let written = session.old_latency == 0 || off > 3_000 && off > mean as int / 5;
            &&& written ==> step == (UdpStep::StoreLatency { latency: mean }) && next.old_latency
                == mean
            &&& !written ==> step == UdpStep::Nothing && next.old_latency == session.old_latency
        }),
{
}

/// What comes over the socket is handled if it is a message and dropped if it is not;
/// a socket that fails or closes ends the session. A session that is to end does at
/// the next tick. None of this changes it.
pub proof fn law_udp_ends_with_its_socket(
    session: UdpSession,
    datagram: Datagram,
    now: u64,
    backoff: bool,
)
    ensures
        ({
            let received = UdpEvent::Received { datagram };
            let exit = UdpEvent::Tick { now, should_exit: true, backoff };
            &&& datagram == Datagram::Message ==> session.step_on(received) == UdpStep::Handle
            &&& datagram == Datagram::Unreadable ==> session.step_on(received) == UdpStep::Nothing
            &&& datagram == Datagram::Failed ==> session.step_on(received) == (UdpStep::Fail {
                failure: UdpFailure::ReceiveFailed,
            })
            &&& datagram == Datagram::Closed ==> session.step_on(received) == (UdpStep::Fail {
                failure: UdpFailure::SocketClosed,
            })
            &&& session.after(received) == session
            &&& session.step_on(exit) == UdpStep::Stop
            &&& session.after(exit) == session
        }),
{
}

/// Every session in these bounds is a good one: confirmed or not, failed or not,
/// whatever was sent and heard.
pub proof fn law_good_sessions(session: UdpSession)
    requires
        session.reg_timeout % 3_000 == 0,
        3_000 <= session.reg_timeout <= 30_000,
        0 <= session.fails <= 3,
        session.fails > 0 ==> session.failed,
        0 <= session.old_latency <= 1_000_000,
        0 <= session.ema_latency <= 1_000_000,
    ensures
        session.wf(),
{
}

/// Time is counted from the earlier moment to the later one; a moment that is still
/// to come is no time ago.
pub proof fn law_time_that_passed(now: u64, since: u64)
    ensures
        since <= now ==> registration::elapsed_millis(now, since) == (now - since) / 1_000_000,
        since <= now ==> registration::elapsed_micros(now, since) == (now - since) / 1_000,
        since > now ==> registration::elapsed_millis(now, since) == 0,
        since > now ==> registration::elapsed_micros(now, since) == 0,
{
}

// ---------------------------------------------------------------------------
// TCP
// ---------------------------------------------------------------------------

/// A tick of a registration over TCP: it ends where it is to, fails where the server
/// was silent for more than half as long again as it said, and else registers where
/// it never did or fifteen seconds have passed since. The tick itself changes nothing.
pub proof fn law_tcp_ticks(session: TcpSession, keep_alive: int, now: u64, should_exit: bool)
    requires
        keep_alive >= 0,
    ensures
        ({
            let tick = TcpEvent::Tick { now, should_exit };
            let step = session.step_on(keep_alive, tick);
            let silence = if session.last_recv <= now {
                (now - session.last_recv) / 1_000_000
            } else {
                0
            };
            let too_long = silence > 3 * keep_alive / 2;
            let fresh = session.last_sent is Some && (now < session.last_sent->0 || (now
                - session.last_sent->0) / 1_000_000 < 15_000);
            &&& should_exit <==> step == TcpStep::Stop
            &&& !should_exit && too_long ==> step == (TcpStep::Fail {
                failure: TcpFailure::TimedOut,
            })
            &&& !should_exit && !too_long && !fresh ==> step == TcpStep::Register
            &&& !should_exit && !too_long && fresh ==> step == TcpStep::Nothing
            &&& session.after(tick) == session
        }),
{
}

/// Whatever comes over the connection is a sign of life. An empty frame is answered
/// with one, a message is handled, and anything else ends the registration.
pub proof fn law_tcp_frames(session: TcpSession, keep_alive: int, now: u64, frame: Frame)
    ensures
        ({
            let received = TcpEvent::Received { now, frame };
            let step = session.step_on(keep_alive, received);
            &&& frame == Frame::Empty ==> step == TcpStep::Heartbeat
            &&& frame == Frame::Message ==> step == TcpStep::Handle
            &&& frame == Frame::Unreadable ==> step == (TcpStep::Fail {
                failure: TcpFailure::Unreadable,
            })
            &&& frame == Frame::Failed ==> step == (TcpStep::Fail {
                failure: TcpFailure::ReceiveFailed,
            })
            &&& frame == Frame::Closed ==> step == (TcpStep::Fail {
                failure: TcpFailure::ResetByPeer,
            })
            &&& session.after(received).last_recv == now
            &&& session.after(received).last_sent == session.last_sent
        }),
{
}

/// The latency over TCP is the time since the last registration was sent, each time;
/// 0 where none was. Sending one is remembered, and is no sign of life.
pub proof fn law_tcp_latency(session: TcpSession, keep_alive: int, sent: u64, now: u64)
    ensures
        ({
            let after = session.after(TcpEvent::Registered { now: sent });
            let answered = TcpEvent::Answered { now };
            &&& after.step_on(keep_alive, answered) == (TcpStep::StoreLatency {
                latency: if sent <= now {
                    ((now - sent) / 1_000) as i64
                } else {
                    0
                },
            })
            &&& after.after(answered) == after
            &&& after.last_recv == session.last_recv
            &&& session.last_sent is None ==> session.step_on(keep_alive, answered) == (
            TcpStep::StoreLatency { latency: 0 })
            &&& session.step_on(keep_alive, TcpEvent::Registered { now: sent }) == TcpStep::Nothing
        }),
{
}

// ---------------------------------------------------------------------------
// Which transport
// ---------------------------------------------------------------------------

/// A registration begins over TCP exactly where a test asks for it, a proxy is used
/// or UDP is switched off, and over UDP everywhere else; web sockets make no
/// difference.
pub proof fn law_registration_begins_over_udp_unless_it_cannot(
    test_tcp: bool,
    proxy: bool,
    websocket: bool,
    udp_disabled: bool,
)
    ensures
        ({
            let step = rendezvous_mediator::start_step(
                StartEvent::Begin { test_tcp, proxy, websocket, udp_disabled },
            );
            &&& step == (StartStep::Run { transport: Transport::Tcp }) <==> test_tcp || proxy
                || udp_disabled
            &&& step == (StartStep::Run { transport: Transport::Udp }) <==> !test_tcp && !proxy
                && !udp_disabled
        }),
{
}

/// What fails over one transport is tried over the other one, once, unless
/// registrations are to end. What ends well is not tried again.
pub proof fn law_each_transport_is_tried_once(transport: Transport, ok: bool, should_exit: bool)
    ensures
        ({
            let first = rendezvous_mediator::start_step(
                StartEvent::First { transport, ok, should_exit },
            );
            let second = rendezvous_mediator::start_step(StartEvent::Second { ok });
            &&& ok ==> first == StartStep::Done && second == StartStep::Done
            &&& !ok ==> second == StartStep::Fail
            &&& !ok && should_exit ==> first == StartStep::Fail
            &&& !ok && !should_exit && transport == Transport::Udp ==> first == (StartStep::Run {
                transport: Transport::Tcp,
            })
            &&& !ok && !should_exit && transport == Transport::Tcp ==> first == (StartStep::Run {
                transport: Transport::Udp,
            })
        }),
{
}

// ---------------------------------------------------------------------------
// Rounds
// ---------------------------------------------------------------------------

/// After a round that was ended by hand the next one begins at once. After any other
/// the wait is in whole seconds, and fills the round up to its least time without
/// going over it; a round that took longer is followed at once.
pub proof fn law_waits_between_rounds(round: Round, service: Service, now: u64)
    ensures
        ({
            let wait = rendezvous_mediator::wait_after(round, service, now);
            let took = if round.started <= now {
                (now - round.started) / 1_000_000
            } else {
                0
            };
            &&& service.manual_restarted ==> wait == 33
            &&& !service.manual_restarted ==> wait % 1_000 == 0
            &&& !service.manual_restarted && took >= round.timeout ==> wait == 0
            &&& !service.manual_restarted && took < round.timeout ==> round.timeout - 1_000 < took
                + wait <= round.timeout
        }),
{
}

/// An error shortens the round exactly where one of the two numbers stands in it that
/// a system gives while its network comes up.
pub proof fn law_only_two_errors_pass(error: Seq<char>)
    ensures
        rendezvous_mediator::is_passing(error) <==> exists|before: Seq<char>, behind: Seq<char>|
            error == #[trigger] (before + "10054"@ + behind) || error == before + "11001"@ + behind,
{
    if rendezvous_mediator::is_passing(error) {
        if text::has_part(error, "10054"@) {
            let (a, b) = text_laws::lemma_part_splits(error, "10054"@);
            assert(error == a + "10054"@ + b);
        } else {
            let (a, b) = text_laws::lemma_part_splits(error, "11001"@);
            assert(error == a + "11001"@ + b);
            assert(exists|before: Seq<char>, behind: Seq<char>|
                error == #[trigger] (before + "10054"@ + behind) || error == before + "11001"@
                    + behind) by {
                let x = a + "10054"@ + b;
            }
        }
    }
    if exists|before: Seq<char>, behind: Seq<char>|
        error == #[trigger] (before + "10054"@ + behind) || error == before + "11001"@ + behind {
        let (a, b) = choose|before: Seq<char>, behind: Seq<char>|
            error == #[trigger] (before + "10054"@ + behind) || error == before + "11001"@ + behind;
        if error == a + "10054"@ + b {
            text_laws::law_parts_are_found(a, "10054"@, b);
        } else {
            text_laws::law_parts_are_found(a, "11001"@, b);
        }
    }
}

// ---------------------------------------------------------------------------
// Servers
// ---------------------------------------------------------------------------

/// A server's key is written down under the part of its name before the first dot;
/// under the whole name where that part is a number or where no dot is in it.
pub proof fn law_host_prefix(name: Seq<char>, rest: Seq<char>)
    requires
        !name.contains('.'),
    ensures
        rendezvous_mediator::host_prefix_of(name) == name,
        text::is_signed_number(name) ==> rendezvous_mediator::host_prefix_of(
            name + seq!['.'] + rest,
        ) == name + seq!['.'] + rest,
        !text::is_signed_number(name) ==> rendezvous_mediator::host_prefix_of(
            name + seq!['.'] + rest,
        ) == name,
{
    let host = name + seq!['.'] + rest;
    lemma_first_dot(name, rest, 0);
    lemma_no_dot(name, 0);
    assert(host.take(name.len() as int) == name);
}

proof fn lemma_first_dot(name: Seq<char>, rest: Seq<char>, from: int)
    requires
        !name.contains('.'),
        0 <= from <= name.len(),
    ensures
        addr_text::first_from(name + seq!['.'] + rest, '.', from) == Some(name.len() as int),
    decreases name.len() - from,
{
    let host = name + seq!['.'] + rest;
    if from < name.len() {
        assert(host[from] == name[from]);
        assert(name.contains(name[from]));
        lemma_first_dot(name, rest, from + 1);
    } else {
        assert(host[from] == '.');
    }
}

proof fn lemma_no_dot(name: Seq<char>, from: int)
    requires
        !name.contains('.'),
        0 <= from <= name.len(),
    ensures
        addr_text::first_from(name, '.', from) is None,
    decreases name.len() - from,
{
    if from < name.len() {
        assert(name.contains(name[from]));
        lemma_no_dot(name, from + 1);
    }
}

/// Every message is taken whose time between signs of life fits in milliseconds.
pub proof fn law_ordinary_messages_are_taken(message: ServerMessage)
    ensures
        !(message is RegisterPkResponse) ==> RendezvousMediator::takes(message),
        message matches ServerMessage::RegisterPkResponse { keep_alive, .. } ==> (
        RendezvousMediator::takes(message) <==> keep_alive <= 2_147_483),
{
}

} // verus!
