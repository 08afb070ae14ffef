//! Staying registered with a rendezvous server, over UDP or over TCP.

use vstd::prelude::*;

use crate::lan;
use crate::rendezvous_mediator;
use crate::rendezvous_mediator::{RendezvousMediator, StartEvent, StartStep, Transport};
use crate::rendezvous_transport;

verus! {

/// How often a peer that is registered registers again, in milliseconds.
pub const REG_INTERVAL: i64 = 15_000;

/// How often a peer registers again that the server has not confirmed to be
/// registered, or that just came back from failures, in milliseconds.
pub const RECOVERY_REG_INTERVAL: i64 = 5_000;

/// How long the first registration waits for an answer, in milliseconds.
pub const MIN_REG_TIMEOUT: i64 = 3_000;

/// How long a registration waits for an answer at most, in milliseconds.
pub const MAX_REG_TIMEOUT: i64 = 30_000;

/// From this many failures in a row on the server counts as slow.
pub const MAX_FAILS: i64 = 2;

/// The longest latency that is believed, in microseconds.
pub const MAX_LATENCY: i64 = 1_000_000;

/// The milliseconds from `since` to `now`, both in nanoseconds.
pub open spec fn elapsed_millis(now: u64, since: u64) -> int {
    lan::elapsed_nanos(now, since) / 1_000_000
}

/// The microseconds from `since` to `now`, both in nanoseconds.
pub open spec fn elapsed_micros(now: u64, since: u64) -> int {
    lan::elapsed_nanos(now, since) / 1_000
}

pub(crate) fn millis(now: u64, since: u64) -> (r: i64)
    ensures
        r == elapsed_millis(now, since),
{
    (lan::elapsed(now, since) / 1_000_000) as i64
}

pub(crate) fn micros(now: u64, since: u64) -> (r: i64)
    ensures
        r == elapsed_micros(now, since),
{
    (lan::elapsed(now, since) / 1_000) as i64
}

// ---------------------------------------------------------------------------
// UDP
// ---------------------------------------------------------------------------

/// A registration over UDP. Times are in nanoseconds on a clock that does not
/// go back, waits in milliseconds and latencies in microseconds.
pub struct UdpSession {
    /// How long the registration that is under way waits for an answer.
    pub reg_timeout: i64,
    /// How many registrations failed in a row.
    pub fails: i64,
    /// Whether the server ever confirmed that the peer is registered.
    pub confirmed: bool,
    /// Whether a registration failed since the server confirmed it the last time.
    pub failed: bool,
    /// Whether a registration had failed when the server confirmed it the last time.
    pub recovering: bool,
    /// When the server answered the last time.
    pub last_resp: Option<u64>,
    /// When the registration was sent that no answer came to yet.
    pub last_sent: Option<u64>,
    /// The latency that was written down, 0 for none.
    pub old_latency: i64,
    /// The mean latency, 0 for none.
    pub ema_latency: i64,
}

/// What came over the socket.
#[derive(Clone, Copy, PartialEq, Eq, Structural, Debug)]
pub enum Datagram {
    /// A message of the server.
    Message,
    /// Something else.
    Unreadable,
    /// An error instead of a datagram.
    Failed,
    /// The end: the socket is closed.
    Closed,
}

/// What happened to a registration over UDP.
#[derive(Clone, Copy, PartialEq, Eq, Structural, Debug)]
pub enum UdpEvent {
    Received { datagram: Datagram },
    /// The server answered a registration. `confirmed` tells whether it said by that
    /// that the peer is registered, which an answer about the key does not.
    Answered { now: u64, confirmed: bool },
    /// The timer went off. `backoff` tells whether to wait longer and longer.
    Tick { now: u64, should_exit: bool, backoff: bool },
}

/// Why a registration over UDP ends.
#[derive(Clone, Copy, PartialEq, Eq, Structural, Debug)]
pub enum UdpFailure {
    ReceiveFailed,
    SocketClosed,
    /// So many registrations in a row had no answer.
    TimedOut { attempts: i64 },
}

impl UdpFailure {
    /// The latency to write down before the registration ends: -1 where the server
    /// did not answer.
    pub fn latency(self) -> (r: Option<i64>)
        ensures
            r == if self is TimedOut {
                Some(-1i64)
            } else {
                None
            },
    {
        match self {
            UdpFailure::TimedOut { .. } => Some(-1),
            UdpFailure::ReceiveFailed | UdpFailure::SocketClosed => None,
        }
    }
}

/// What to do for a registration over UDP.
#[derive(Clone, Copy, PartialEq, Eq, Structural, Debug)]
pub enum UdpStep {
    Nothing,
    /// Handle the message that was received.
    Handle,
    /// Write down the latency of the server.
    StoreLatency { latency: i64 },
    /// Register; write down the latency of the server first, if one is given.
    Register { latency_first: Option<i64> },
    /// End without a failure.
    Stop,
    /// End with a failure; write down its latency first, if it has one.
    Fail { failure: UdpFailure },
}

impl UdpSession {
    /// What holds of a registration that goes on.
    pub open spec fn wf(self) -> bool {
        &&& MIN_REG_TIMEOUT <= self.reg_timeout <= MAX_REG_TIMEOUT
        &&& self.reg_timeout % MIN_REG_TIMEOUT == 0
        &&& 0 <= self.fails < rendezvous_transport::UDP_REGISTRATION_FAILURE_LIMIT
        &&& self.fails > 0 ==> self.failed
        &&& 0 <= self.old_latency <= MAX_LATENCY
        &&& 0 <= self.ema_latency <= MAX_LATENCY
    }

    /// How often to register: faster while the server has not confirmed it, not
    /// since a failure, or right after failures.
    pub open spec fn interval(self) -> int {
        if !self.confirmed || self.failed || self.recovering {
            RECOVERY_REG_INTERVAL as int
        } else {
            REG_INTERVAL as int
        }
    }

    /// Whether the registration that is under way has waited long enough.
    pub open spec fn timed_out(self, now: u64) -> bool {
        self.last_sent matches Some(t) && elapsed_millis(now, t) >= self.reg_timeout
    }

    /// Whether the last answer is so old that it is time to register again.
    pub open spec fn expired(self, now: u64) -> bool {
        self.last_resp matches Some(t) ==> elapsed_millis(now, t) >= self.interval()
    }

    /// Whether to register now.
    pub open spec fn due(self, now: u64) -> bool {
        self.timed_out(now) || self.last_sent is None && self.expired(now)
    }

    /// How many registrations failed in a row, with the one that is under way.
    pub open spec fn fails_at(self, now: u64) -> int {
        if self.timed_out(now) {
            self.fails + 1
        } else {
            self.fails as int
        }
    }

    /// Whether the server counts as slow from now on.
    pub open spec fn slow_at(self, now: u64) -> bool {
        self.timed_out(now) && self.fails_at(now) >= MAX_FAILS
    }

    /// How long to wait for the next answer.
    pub open spec fn timeout_at(self, now: u64, backoff: bool) -> int {
        if backoff && self.timed_out(now) && self.reg_timeout < MAX_REG_TIMEOUT {
            self.reg_timeout + MIN_REG_TIMEOUT
        } else {
            self.reg_timeout as int
        }
    }

    /// The registration after it was sent again at `now`.
    pub open spec fn registered(self, now: u64, backoff: bool) -> UdpSession {
        UdpSession {
            reg_timeout: self.timeout_at(now, backoff) as i64,
            fails: self.fails_at(now) as i64,
            failed: self.failed || self.timed_out(now),
            last_sent: Some(now),
            old_latency: if self.slow_at(now) {
                0
            } else {
                self.old_latency
            },
            ..self
        }
    }

    /// The time from the registration to the answer at `now`.
    pub open spec fn sample(self, now: u64) -> int {
        match self.last_sent {
            Some(t) => elapsed_micros(now, t),
            None => 0,
        }
    }

    /// Whether the latency of the answer at `now` is believed.
    pub open spec fn believed(self, now: u64) -> bool {
        self.sample(now) <= MAX_LATENCY
    }

    /// The mean latency with the answer at `now`.
    pub open spec fn mean(self, now: u64) -> int {
        if self.ema_latency == 0 {
            self.sample(now)
        } else {
            self.sample(now) / 30 + self.ema_latency * 29 / 30
        }
    }

    /// Whether the mean latency differs enough from what was written down.
    pub open spec fn changed(self, now: u64) -> bool {
        let mean = self.mean(now);
        let margin = if mean / 5 < 3000 {
            3000
        } else {
            mean / 5
        };
        mean - self.old_latency > margin || self.old_latency - mean > margin || self.old_latency
            <= 0
    }

    /// The registration after the server answered at `now`.
    pub open spec fn answered(self, now: u64, confirmed: bool) -> UdpSession {
        UdpSession {
            reg_timeout: MIN_REG_TIMEOUT,
            fails: 0,
            confirmed: self.confirmed || confirmed,
            failed: self.failed && !confirmed,
            recovering: if confirmed {
                self.failed
            } else {
                self.recovering
            },
            last_resp: Some(now),
            last_sent: None,
            old_latency: if self.believed(now) && self.changed(now) {
                self.mean(now) as i64
            } else {
                self.old_latency
            },
            ema_latency: if self.believed(now) {
                self.mean(now) as i64
            } else {
                self.ema_latency
            },
        }
    }

    /// What is done on `event`.
    pub open spec fn step_on(self, event: UdpEvent) -> UdpStep {
        match event {
            UdpEvent::Received { datagram } => match datagram {
                Datagram::Message => UdpStep::Handle,
                Datagram::Unreadable => UdpStep::Nothing,
                Datagram::Failed => UdpStep::Fail { failure: UdpFailure::ReceiveFailed },
                Datagram::Closed => UdpStep::Fail { failure: UdpFailure::SocketClosed },
            },
            UdpEvent::Answered { now, .. } => if self.believed(now) && self.changed(now) {
                UdpStep::StoreLatency { latency: self.mean(now) as i64 }
            } else {
                UdpStep::Nothing
            },
            UdpEvent::Tick { now, should_exit, .. } => if should_exit {
                UdpStep::Stop
            } else if !self.due(now) {
                UdpStep::Nothing
            } else if self.fails_at(now)
                >= rendezvous_transport::UDP_REGISTRATION_FAILURE_LIMIT {
                UdpStep::Fail {
                    failure: UdpFailure::TimedOut { attempts: self.fails_at(now) as i64 },
                }
            } else {
                UdpStep::Register {
                    latency_first: if self.slow_at(now) {
                        Some(0)
                    } else {
                        None
                    },
                }
            },
        }
    }

    /// The registration after `event`.
    pub open spec fn after(self, event: UdpEvent) -> UdpSession {
        match event {
            UdpEvent::Received { .. } => self,
            UdpEvent::Answered { now, confirmed } => self.answered(now, confirmed),
            UdpEvent::Tick { now, backoff, .. } => if self.step_on(event) is Register {
                self.registered(now, backoff)
            } else {
                self
            },
        }
    }

    /// Nothing was sent yet.
    pub fn new() -> (r: UdpSession)
        ensures
            r.wf(),
            r.reg_timeout == MIN_REG_TIMEOUT,
            r.fails == 0,
            !r.confirmed,
            !r.failed,
            !r.recovering,
            r.last_resp is None,
            r.last_sent is None,
            r.old_latency == 0,
            r.ema_latency == 0,
    {
        UdpSession {
            reg_timeout: MIN_REG_TIMEOUT,
            fails: 0,
            confirmed: false,
            failed: false,
            recovering: false,
            last_resp: None,
            last_sent: None,
            old_latency: 0,
            ema_latency: 0,
        }
    }

    fn tick(&mut self, now: u64, should_exit: bool, backoff: bool) -> (r: UdpStep)
        requires
            old(self).wf(),
        ensures
            r == old(self).step_on(UdpEvent::Tick { now, should_exit, backoff }),
            *final(self) == old(self).after(UdpEvent::Tick { now, should_exit, backoff }),
            final(self).wf(),
    {
        if should_exit {
            return UdpStep::Stop;
        }
        let interval: i64 = if !self.confirmed || self.failed || self.recovering {
            RECOVERY_REG_INTERVAL
        } else {
            REG_INTERVAL
        };
        let expired = match self.last_resp {
            Some(t) => millis(now, t) >= interval,
            None => true,
        };
        let timed_out = match self.last_sent {
            Some(t) => millis(now, t) >= self.reg_timeout,
            None => false,
        };
        if !(timed_out || (self.last_sent.is_none() && expired)) {
            return UdpStep::Nothing;
        }
        let mut latency_first: Option<i64> = None;
        if timed_out {
            let fails: i64 = self.fails + 1;
            if rendezvous_transport::should_fallback_to_tcp(fails) {
                return UdpStep::Fail { failure: UdpFailure::TimedOut { attempts: fails } };
            }
            self.fails = fails;
            self.failed = true;
            if backoff && self.reg_timeout < MAX_REG_TIMEOUT {
                self.reg_timeout = self.reg_timeout + MIN_REG_TIMEOUT;
            }
            if fails >= MAX_FAILS {
                latency_first = Some(0);
                self.old_latency = 0;
            }
        }
        self.last_sent = Some(now);
        UdpStep::Register { latency_first }
    }

    fn answer(&mut self, now: u64, confirmed: bool) -> (r: UdpStep)
        requires
            old(self).wf(),
        ensures
            r == old(self).step_on(UdpEvent::Answered { now, confirmed }),
            *final(self) == old(self).after(UdpEvent::Answered { now, confirmed }),
            final(self).wf(),
    {
        let mut latency: i64 = match self.last_sent {
            Some(t) => micros(now, t),
            None => 0,
        };
        self.last_resp = Some(now);
        if confirmed {
            self.confirmed = true;
            self.recovering = self.failed;
            self.failed = false;
        }
        self.fails = 0;
        self.reg_timeout = MIN_REG_TIMEOUT;
        self.last_sent = None;
        if latency > MAX_LATENCY {
            return UdpStep::Nothing;
        }
        if self.ema_latency == 0 {
            self.ema_latency = latency;
        } else {
            self.ema_latency = latency / 30 + self.ema_latency * 29 / 30;
            latency = self.ema_latency;
        }
        let mut margin: i64 = latency / 5;
        if margin < 3000 {
            margin = 3000;
        }
        let old_latency: i64 = self.old_latency;
        if latency - old_latency > margin || old_latency - latency > margin || old_latency <= 0 {
            self.old_latency = latency;
            return UdpStep::StoreLatency { latency };
        }
        UdpStep::Nothing
    }
}

impl RendezvousMediator {
    /// What a registration over UDP does on `event`.
    pub fn start_udp(session: &mut UdpSession, event: UdpEvent) -> (r: UdpStep)
        requires
            old(session).wf(),
        ensures
            r == old(session).step_on(event),
            *final(session) == old(session).after(event),
            final(session).wf(),
    {
        match event {
            UdpEvent::Received { datagram } => match datagram {
                Datagram::Message => UdpStep::Handle,
                Datagram::Unreadable => UdpStep::Nothing,
                Datagram::Failed => UdpStep::Fail { failure: UdpFailure::ReceiveFailed },
                Datagram::Closed => UdpStep::Fail { failure: UdpFailure::SocketClosed },
            },
            UdpEvent::Answered { now, confirmed } => session.answer(now, confirmed),
            UdpEvent::Tick { now, should_exit, backoff } => session.tick(now, should_exit, backoff),
        }
    }
}

/// A registration over UDP never waits less than three seconds for an answer nor
/// more than thirty, never counts more than three failures, and never believes a
/// latency of more than a second, whatever happens.
pub proof fn law_udp_session_stays_in_bounds(session: UdpSession, event: UdpEvent)
    requires
        session.wf(),
    ensures
        session.after(event).wf(),
{
    if let UdpEvent::Tick { now, should_exit, backoff } = event {
        let next = session.after(event);
        assert(next.reg_timeout == session.reg_timeout || next.reg_timeout == session.reg_timeout
            + MIN_REG_TIMEOUT);
    }
}

/// An answer sets a registration over UDP back: no failure is counted, and the
/// wait is the shortest. If the answer confirms that the peer is registered, the
/// next registration is due after the short interval where one had failed before,
/// else after the long one, and not before.
pub proof fn law_answer_restores_udp_session(session: UdpSession, now: u64, later: u64)
    requires
        session.wf(),
    ensures
        ({
            let next = session.after(UdpEvent::Answered { now, confirmed: true });
            &&& next.fails == 0
            &&& next.reg_timeout == MIN_REG_TIMEOUT
            &&& next.due(later) <==> elapsed_millis(later, now) >= (if session.failed {
                RECOVERY_REG_INTERVAL
            } else {
                REG_INTERVAL
            })
            &&& session.fails > 0 ==> (next.due(later) <==> elapsed_millis(later, now)
                >= RECOVERY_REG_INTERVAL)
        }),
{
}

/// An answer that does not confirm that the peer is registered leaves it as
/// unconfirmed as it was: where the server never confirmed it, or not since a
/// failure, the next registration is due after the short interval, and when the
/// server does confirm it, that counts as right after the failure.
pub proof fn law_key_answers_confirm_nothing(
    session: UdpSession,
    now: u64,
    then: u64,
    later: u64,
)
    requires
        !session.confirmed || session.failed,
    ensures
        ({
            let next = session.after(UdpEvent::Answered { now, confirmed: false });
            let last = next.after(UdpEvent::Answered { now: then, confirmed: true });
            &&& next.fails == 0
            &&& next.due(later) <==> elapsed_millis(later, now) >= RECOVERY_REG_INTERVAL
            &&& last.due(later) <==> elapsed_millis(later, then) >= (if session.failed {
                RECOVERY_REG_INTERVAL
            } else {
                REG_INTERVAL
            })
        }),
{
}

/// The session after registrations were sent at each of `times` and none was
/// answered.
pub open spec fn after_ticks(session: UdpSession, times: Seq<u64>, backoff: bool) -> UdpSession
    decreases times.len(),
{
    if times.len() == 0 {
        session
    } else {
        after_ticks(session, times.drop_last(), backoff).after(
            UdpEvent::Tick { now: times.last(), should_exit: false, backoff },
        )
    }
}

/// A registration over UDP gives up when the fourth wait in a row ends without an
/// answer, and not before. Here `times` are the times when it registered.
pub proof fn law_udp_gives_up_after_four_timeouts(
    session: UdpSession,
    times: Seq<u64>,
    now: u64,
    backoff: bool,
)
    requires
        session.wf(),
        session.fails == 0,
        session.last_sent is None,
        1 <= times.len() <= rendezvous_transport::UDP_REGISTRATION_FAILURE_LIMIT,
        session.expired(times[0]),
        forall|i: int|
            #![trigger times[i]]
            1 <= i < times.len() ==> after_ticks(session, times.take(i), backoff).timed_out(
                times[i],
            ),
        after_ticks(session, times, backoff).timed_out(now),
    ensures
        after_ticks(session, times, backoff).step_on(
            UdpEvent::Tick { now, should_exit: false, backoff },
        ) is Fail <==> times.len() == rendezvous_transport::UDP_REGISTRATION_FAILURE_LIMIT,
        after_ticks(session, times, backoff).step_on(
            UdpEvent::Tick { now, should_exit: false, backoff },
        ) is Register <==> times.len() < rendezvous_transport::UDP_REGISTRATION_FAILURE_LIMIT,
{
    lemma_after_ticks(session, times, backoff);
}

/// Four registrations over UDP in a row that have no answer have the peer register
/// over TCP, unless registrations are to end.
pub proof fn law_unanswered_udp_falls_back_to_tcp(
    session: UdpSession,
    times: Seq<u64>,
    now: u64,
    backoff: bool,
)
    requires
        session.wf(),
        session.fails == 0,
        session.last_sent is None,
        times.len() == 4,
        session.expired(times[0]),
        forall|i: int|
            #![trigger times[i]]
            1 <= i < times.len() ==> after_ticks(session, times.take(i), backoff).timed_out(
                times[i],
            ),
        after_ticks(session, times, backoff).timed_out(now),
    ensures
        after_ticks(session, times, backoff).step_on(
            UdpEvent::Tick { now, should_exit: false, backoff },
        ) == (UdpStep::Fail { failure: UdpFailure::TimedOut { attempts: 4 } }),
        rendezvous_mediator::start_step(
            StartEvent::First { transport: Transport::Udp, ok: false, should_exit: false },
        ) == (StartStep::Run { transport: Transport::Tcp }),
{
    lemma_after_ticks(session, times, backoff);
}

proof fn lemma_after_ticks(session: UdpSession, times: Seq<u64>, backoff: bool)
    requires
        session.wf(),
        session.fails == 0,
        session.last_sent is None,
        1 <= times.len() <= rendezvous_transport::UDP_REGISTRATION_FAILURE_LIMIT,
        session.expired(times[0]),
        forall|i: int|
            #![trigger times[i]]
            1 <= i < times.len() ==> after_ticks(session, times.take(i), backoff).timed_out(
                times[i],
            ),
    ensures
        after_ticks(session, times, backoff).wf(),
        after_ticks(session, times, backoff).fails == times.len() - 1,
    decreases times.len(),
{
    let before = times.drop_last();
    let n = times.len() - 1;
    assert(before == times.take(n));
    if n == 0 {
        assert(after_ticks(session, before, backoff) == session);
    } else {
        assert forall|i: int| #![trigger before[i]] 1 <= i < before.len() implies after_ticks(
            session,
            before.take(i),
            backoff,
        ).timed_out(before[i]) by {
            assert(before.take(i) == times.take(i));
            assert(times[i] == before[i]);
        }
        lemma_after_ticks(session, before, backoff);
        assert(times[n] == times.last());
    }
    law_udp_session_stays_in_bounds(
        after_ticks(session, before, backoff),
        UdpEvent::Tick { now: times.last(), should_exit: false, backoff },
    );
}

// ---------------------------------------------------------------------------
// TCP
// ---------------------------------------------------------------------------

/// A registration over TCP. Times are in nanoseconds on a clock that does not go
/// back.
pub struct TcpSession {
    /// When something came from the server the last time.
    pub last_recv: u64,
    /// When the last registration was sent.
    pub last_sent: Option<u64>,
}

/// What came over the connection.
#[derive(Clone, Copy, PartialEq, Eq, Structural, Debug)]
pub enum Frame {
    /// A frame of no bytes: a sign of life.
    Empty,
    /// A message of the server.
    Message,
    /// Something else.
    Unreadable,
    /// An error instead of a frame.
    Failed,
    /// The end: the server closed the connection.
    Closed,
}

/// What happened to a registration over TCP.
#[derive(Clone, Copy, PartialEq, Eq, Structural, Debug)]
pub enum TcpEvent {
    Received { now: u64, frame: Frame },
    /// The server answered a registration.
    Answered { now: u64 },
    /// The timer went off.
    Tick { now: u64, should_exit: bool },
    /// A registration was sent.
    Registered { now: u64 },
}

/// Why a registration over TCP ends.
#[derive(Clone, Copy, PartialEq, Eq, Structural, Debug)]
pub enum TcpFailure {
    ResetByPeer,
    ReceiveFailed,
    Unreadable,
    /// Nothing came from the server for too long.
    TimedOut,
}

/// What to do for a registration over TCP.
#[derive(Clone, Copy, PartialEq, Eq, Structural, Debug)]
pub enum TcpStep {
    Nothing,
    /// Handle the message that was received.
    Handle,
    /// Answer a sign of life with another: a frame of no bytes.
    Heartbeat,
    /// Write down the latency of the server.
    StoreLatency { latency: i64 },
    /// Register.
    Register,
    /// End without a failure.
    Stop,
    /// End with a failure.
    Fail { failure: TcpFailure },
}

impl TcpSession {
    /// Whether nothing came from the server for half as long again as it said it
    /// would take at most.
    pub open spec fn silent(self, keep_alive: int, now: u64) -> bool {
        elapsed_millis(now, self.last_recv) > keep_alive * 3 / 2
    }

    /// Whether to register now.
    pub open spec fn due(self, now: u64) -> bool {
        self.last_sent matches Some(t) ==> elapsed_millis(now, t) >= REG_INTERVAL
    }

    /// What is done on `event`.
    pub open spec fn step_on(self, keep_alive: int, event: TcpEvent) -> TcpStep {
        match event {
            TcpEvent::Received { frame, .. } => match frame {
                Frame::Empty => TcpStep::Heartbeat,
                Frame::Message => TcpStep::Handle,
                Frame::Unreadable => TcpStep::Fail { failure: TcpFailure::Unreadable },
                Frame::Failed => TcpStep::Fail { failure: TcpFailure::ReceiveFailed },
                Frame::Closed => TcpStep::Fail { failure: TcpFailure::ResetByPeer },
            },
            TcpEvent::Answered { now } => TcpStep::StoreLatency {
                latency: match self.last_sent {
                    Some(t) => elapsed_micros(now, t) as i64,
                    None => 0,
                },
            },
            TcpEvent::Tick { now, should_exit } => if should_exit {
                TcpStep::Stop
            } else if self.silent(keep_alive, now) {
                TcpStep::Fail { failure: TcpFailure::TimedOut }
            } else if self.due(now) {
                TcpStep::Register
            } else {
                TcpStep::Nothing
            },
            TcpEvent::Registered { .. } => TcpStep::Nothing,
        }
    }

    /// The registration after `event`.
    pub open spec fn after(self, event: TcpEvent) -> TcpSession {
        match event {
            TcpEvent::Received { now, .. } => TcpSession { last_recv: now, ..self },
            TcpEvent::Registered { now } => TcpSession { last_sent: Some(now), ..self },
            _ => self,
        }
    }

    /// A connection that was made at `now`.
    pub fn new(now: u64) -> (r: TcpSession)
        ensures
            r.last_recv == now,
            r.last_sent is None,
    {
        TcpSession { last_recv: now, last_sent: None }
    }
}

impl RendezvousMediator {
    /// What the registration over TCP does on `event`.
    pub fn start_tcp(&self, session: &mut TcpSession, event: TcpEvent) -> (r: TcpStep)
        requires
            self.keep_alive >= 0,
        ensures
            r == old(session).step_on(self.keep_alive as int, event),
            *final(session) == old(session).after(event),
    {
        match event {
            TcpEvent::Received { now, frame } => {
                session.last_recv = now;
                match frame {
                    Frame::Empty => TcpStep::Heartbeat,
                    Frame::Message => TcpStep::Handle,
                    Frame::Unreadable => TcpStep::Fail { failure: TcpFailure::Unreadable },
                    Frame::Failed => TcpStep::Fail { failure: TcpFailure::ReceiveFailed },
                    Frame::Closed => TcpStep::Fail { failure: TcpFailure::ResetByPeer },
                }
            },
            TcpEvent::Answered { now } => {
                let latency: i64 = match session.last_sent {
                    Some(t) => micros(now, t),
                    None => 0,
                };
                TcpStep::StoreLatency { latency }
            },
            TcpEvent::Tick { now, should_exit } => {
                if should_exit {
                    return TcpStep::Stop;
                }
                if millis(now, session.last_recv) > self.keep_alive as i64 * 3 / 2 {
                    return TcpStep::Fail { failure: TcpFailure::TimedOut };
                }
                let due = match session.last_sent {
                    Some(t) => millis(now, t) >= REG_INTERVAL,
                    None => true,
                };
                if due {
                    TcpStep::Register
                } else {
                    TcpStep::Nothing
                }
            },
            TcpEvent::Registered { now } => {
                session.last_sent = Some(now);
                TcpStep::Nothing
            },
        }
    }
}

/// A registration over TCP is sent at once and then every fifteen seconds, as long
/// as the server is heard of.
pub proof fn law_tcp_registers_every_interval(
    session: TcpSession,
    keep_alive: int,
    sent: u64,
    now: u64,
)
    requires
        !session.silent(keep_alive, now),
    ensures
        session.last_sent is None ==> session.step_on(
            keep_alive,
            TcpEvent::Tick { now, should_exit: false },
        ) == TcpStep::Register,
        session.after(TcpEvent::Registered { now: sent }).step_on(
            keep_alive,
            TcpEvent::Tick { now, should_exit: false },
        ) == if elapsed_millis(now, sent) >= REG_INTERVAL {
            TcpStep::Register
        } else {
            TcpStep::Nothing
        },
{
}

/// Anything that comes from the server keeps a registration over TCP from timing
/// out for half as long again as the server said.
pub proof fn law_any_frame_is_a_sign_of_life(
    session: TcpSession,
    keep_alive: int,
    heard: u64,
    frame: Frame,
    now: u64,
)
    ensures
        session.after(TcpEvent::Received { now: heard, frame }).step_on(
            keep_alive,
            TcpEvent::Tick { now, should_exit: false },
        ) is Fail <==> elapsed_millis(now, heard) > keep_alive * 3 / 2,
{
}

/// When registrations are to end, each of them does on its next tick, whatever it
/// waits for.
pub proof fn law_registrations_end_on_the_next_tick(
    udp: UdpSession,
    tcp: TcpSession,
    keep_alive: int,
    now: u64,
    backoff: bool,
)
    ensures
        udp.step_on(UdpEvent::Tick { now, should_exit: true, backoff }) == UdpStep::Stop,
        tcp.step_on(keep_alive, TcpEvent::Tick { now, should_exit: true }) == TcpStep::Stop,
{
}

} // verus!
