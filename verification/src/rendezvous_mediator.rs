//! Being registered with the rendezvous servers: the service that keeps one
//! registration per server, and what a server's messages ask for.

use vstd::prelude::*;

use crate::addr_text;
use crate::registration;
use crate::rendezvous_transport;
use crate::text;

verus! {

/// How long a round of registrations lasts at least, in milliseconds.
pub const CONNECT_TIMEOUT: u64 = 18_000;

/// How long it lasts at least after an error that a restart of the system
/// explains, in milliseconds.
pub const SHORT_TIMEOUT: u64 = 3_000;

/// The registration with one server.
#[derive(Clone)]
pub struct RendezvousMediator {
    /// Whether the server is reached over IPv4.
    pub ipv4: bool,
    pub host: String,
    /// The name under which it is written down that the server has the key.
    pub host_prefix: String,
    /// How often the server is heard of at least, in milliseconds.
    pub keep_alive: i32,
}

/// What all registrations share.
pub struct Service {
    /// Registrations are to end.
    pub should_exit: bool,
    /// The round ends because it was asked to, not because of a failure.
    pub manual_restarted: bool,
    /// The key was sent to a server.
    pub sent_register_pk: bool,
    /// The server for which a new identity is being settled; empty for none.
    pub solving: String,
}

// ---------------------------------------------------------------------------
// The service
// ---------------------------------------------------------------------------

/// A round of registrations, one for each server.
pub struct Round {
    /// When it began, in nanoseconds.
    pub started: u64,
    /// How long it lasts at least, in milliseconds.
    pub timeout: u64,
}

/// What happened to the service.
pub enum ServiceEvent {
    /// The program starts the service. Listening for pings is possible on most
    /// systems.
    Launch { outgoing_only: bool, stopped: bool, lan_supported: bool },
    /// Listening for pings ended with an error.
    LanListenerFailed,
    /// A peer that only calls others looks whether to end.
    OutgoingOnly,
    /// A round begins. The user may have stopped the service, or it is being
    /// installed.
    Begin { now: u64, stopped: bool, installing: bool },
    /// A registration ended, with this error or with none.
    Ended { error: Option<String> },
    /// All registrations of the round ended.
    Finished { now: u64 },
}

/// What to do for the service.
#[derive(Clone, Copy, PartialEq, Eq, Structural, Debug)]
pub enum ServiceStep {
    /// Start what runs beside the registrations, each once: look whether the servers
    /// can be reached, listen for direct connections, listen for pings.
    Start { test_servers: bool, direct_server: bool, lan_listener: bool },
    /// Nothing but go on with what runs.
    Continue,
    /// The service ends.
    Return,
    /// Register with every server.
    Serve,
    /// Close all connections; nothing is registered in this round.
    CloseConnections,
    /// Wait that many milliseconds, then go on.
    Sleep { wait: u64 },
}

/// Whether an error is one that comes when the system restarts: the host is not
/// known, or the connection was closed by the other side.
pub open spec fn is_passing(error: Seq<char>) -> bool {
    text::has_part(error, "10054"@) || text::has_part(error, "11001"@)
}

/// How long to wait after a round: a moment where a restart was asked for, else
/// what is left of the least time, in whole seconds.
pub open spec fn wait_after(round: Round, service: Service, now: u64) -> int {
    if service.manual_restarted {
        33
    } else if registration::elapsed_millis(now, round.started) < round.timeout {
        (round.timeout - registration::elapsed_millis(now, round.started)) / 1000 * 1000
    } else {
        0
    }
}

impl Service {
    pub fn new() -> (r: Service)
        ensures
            !r.should_exit,
            !r.manual_restarted,
            !r.sent_register_pk,
            r.solving@.len() == 0,
    {
        Service {
            should_exit: false,
            manual_restarted: false,
            sent_register_pk: false,
            solving: String::new(),
        }
    }

    /// Whether the registration with `host` may go on: no other server is having
    /// a new identity settled.
    pub open spec fn is_free_for(self, host: Seq<char>) -> bool {
        self.solving@.len() == 0 || self.solving@ == host
    }

    fn free_for(&self, host: &String) -> (r: bool)
        ensures
            r == self.is_free_for(host@),
    {
        self.solving.as_str().is_empty() || self.solving == *host
    }
}

impl RendezvousMediator {
    /// Asks all registrations to end and to begin again at once.
    pub fn restart(service: &mut Service)
        ensures
            *final(service) == (Service {
                should_exit: true,
                manual_restarted: true,
                ..*old(service)
            }),
    {
        service.should_exit = true;
        service.manual_restarted = true;
    }

    /// What the service does on `event`. A peer that only calls others starts
    /// nothing; any other listens for direct connections and for pings, however it
    /// was installed.
    pub fn start_all(service: &mut Service, round: &mut Round, event: ServiceEvent) -> (r:
        ServiceStep)
        ensures
            final(service).sent_register_pk == old(service).sent_register_pk,
            event matches ServiceEvent::Launch { outgoing_only, stopped, lan_supported } ==> {
                &&& *final(service) == *old(service)
                &&& *final(round) == *old(round)
                &&& r == (ServiceStep::Start {
                    test_servers: !outgoing_only && stopped,
                    direct_server: !outgoing_only,
                    lan_listener: !outgoing_only && lan_supported,
                })
            },
            r is Start ==> event is Launch,
            event is LanListenerFailed ==> {
                &&& *final(service) == *old(service)
                &&& *final(round) == *old(round)
                &&& r == ServiceStep::Continue
            },
            r is Serve ==> event is Begin,
            event is OutgoingOnly ==> {
                &&& *final(service) == *old(service)
                &&& *final(round) == *old(round)
                &&& r == if old(service).should_exit {
                    ServiceStep::Return
                } else {
                    ServiceStep::Sleep { wait: 1000 }
                }
            },
            event matches ServiceEvent::Begin { now, stopped, installing } ==> {
                &&& final(round).started == now
                &&& final(round).timeout == CONNECT_TIMEOUT == 18_000
                &&& final(service).solving@.len() == 0
                &&& if stopped || installing {
                    &&& r == ServiceStep::CloseConnections
                    &&& final(service).should_exit == old(service).should_exit
                    &&& final(service).manual_restarted == old(service).manual_restarted
                } else {
                    &&& r == ServiceStep::Serve
                    &&& !final(service).should_exit
                    &&& !final(service).manual_restarted
                }
            },
            event matches ServiceEvent::Ended { error } ==> {
                &&& r == ServiceStep::Continue
                &&& *final(service) == (Service { should_exit: true, ..*old(service) })
                &&& final(round).started == old(round).started
                &&& final(round).timeout == if error is Some && is_passing(error->0@) {
                    SHORT_TIMEOUT
                } else {
                    old(round).timeout
                }
                &&& error is Some && is_passing(error->0@) ==> final(round).timeout == 3_000
            },
            event matches ServiceEvent::Finished { now } ==> {
                &&& *final(service) == *old(service)
                &&& *final(round) == *old(round)
                &&& r == (ServiceStep::Sleep {
                    wait: wait_after(*old(round), *old(service), now) as u64,
                })
            },
    {
        match event {
            ServiceEvent::Launch { outgoing_only, stopped, lan_supported } => ServiceStep::Start {
                test_servers: !outgoing_only && stopped,
                direct_server: !outgoing_only,
                lan_listener: !outgoing_only && lan_supported,
            },
            ServiceEvent::LanListenerFailed => ServiceStep::Continue,
            ServiceEvent::OutgoingOnly => {
                if service.should_exit {
                    ServiceStep::Return
                } else {
                    ServiceStep::Sleep { wait: 1000 }
                }
            },
            ServiceEvent::Begin { now, stopped, installing } => {
                round.started = now;
                round.timeout = CONNECT_TIMEOUT;
                service.solving = String::new();
                if stopped || installing {
                    ServiceStep::CloseConnections
                } else {
                    service.should_exit = false;
                    service.manual_restarted = false;
                    ServiceStep::Serve
                }
            },
            ServiceEvent::Ended { error } => {
                if let Some(error) = error {
                    let chars = text::chars_of(error.as_str());
                    if text::contains(chars.as_slice(), "10054") || text::contains(
                        chars.as_slice(),
                        "11001",
                    ) {
                        round.timeout = SHORT_TIMEOUT;
                    }
                }
                service.should_exit = true;
                ServiceStep::Continue
            },
            ServiceEvent::Finished { now } => {
                if service.manual_restarted {
                    return ServiceStep::Sleep { wait: 33 };
                }
                let elapsed: u64 = registration::millis(now, round.started) as u64;
                if elapsed < round.timeout {
                    ServiceStep::Sleep { wait: (round.timeout - elapsed) / 1000 * 1000 }
                } else {
                    ServiceStep::Sleep { wait: 0 }
                }
            },
        }
    }
}

// ---------------------------------------------------------------------------
// One registration
// ---------------------------------------------------------------------------

/// What happened when a registration was started.
#[derive(Clone, Copy, PartialEq, Eq, Structural, Debug)]
pub enum StartEvent {
    /// It begins, under these circumstances.
    Begin { test_tcp: bool, proxy: bool, websocket: bool, udp_disabled: bool },
    /// The first attempt ended.
    First { transport: Transport, ok: bool, should_exit: bool },
    /// The second attempt ended.
    Second { ok: bool },
}

/// How a server is reached.
#[derive(Clone, Copy, PartialEq, Eq, Structural, Debug)]
pub enum Transport {
    Udp,
    Tcp,
}

/// What to do to start a registration.
#[derive(Clone, Copy, PartialEq, Eq, Structural, Debug)]
pub enum StartStep {
    /// Register over this transport.
    Run { transport: Transport },
    /// The registration ended as it should.
    Done,
    /// The registration failed, with the error of the last attempt.
    Fail,
}

impl Transport {
    /// The transport to fall back to.
    pub open spec fn other(self) -> Transport {
        match self {
            Transport::Udp => Transport::Tcp,
            Transport::Tcp => Transport::Udp,
        }
    }
}

/// What is done to start a registration.
pub open spec fn start_step(event: StartEvent) -> StartStep {
    match event {
        StartEvent::Begin { test_tcp, proxy, udp_disabled, .. } => StartStep::Run {
            transport: if test_tcp || proxy || udp_disabled {
                Transport::Tcp
            } else {
                Transport::Udp
            },
        },
        StartEvent::First { transport, ok, should_exit } => if ok {
            StartStep::Done
        } else if should_exit {
            StartStep::Fail
        } else {
            StartStep::Run { transport: transport.other() }
        },
        StartEvent::Second { ok } => if ok {
            StartStep::Done
        } else {
            StartStep::Fail
        },
    }
}

/// What a server says to a registration of the key.
#[derive(Clone, Copy, PartialEq, Eq, Structural, Debug)]
pub enum PkResult {
    Accepted,
    /// The identity belongs to another device.
    UuidMismatch,
    Other,
}

/// A message of a server.
pub enum ServerMessage {
    RegisterPeerResponse { request_pk: bool },
    RegisterPkResponse { result: PkResult, keep_alive: i32 },
    PunchHole,
    RequestRelay,
    FetchLocalAddr,
    ConfigureUpdate { rendezvous_servers: Vec<String>, serial: i32 },
    Other,
}

/// What a message of a server asks for.
pub enum RespAction {
    Nothing,
    /// Send the key.
    RegisterPk,
    /// Write down that the server has the key, then register.
    ConfirmKey,
    /// Write down that no server has the key, take a new identity, then send the
    /// key.
    NewIdentity,
    /// Make a way to a peer, in the background.
    PunchHole,
    RequestRelay,
    FetchLocalAddr,
    /// Write down the list of servers and its number.
    Configure { rendezvous_servers: String, serial: i32 },
}

/// What to do on a message of a server.
pub struct RespStep {
    /// The message answers a registration: its latency is known now.
    pub answered: bool,
    /// The message says that the peer is registered.
    pub confirmed: bool,
    /// How often the server will be heard of at least, in milliseconds, once the
    /// action is done; none where that stays as it is.
    pub keep_alive: Option<i32>,
    pub action: RespAction,
}

fn no_answer(action: RespAction) -> (r: RespStep)
    ensures
        r == (RespStep { answered: false, confirmed: false, keep_alive: None, action }),
{
    RespStep { answered: false, confirmed: false, keep_alive: None, action }
}

/// What a registration sends.
#[derive(Clone, Copy, PartialEq, Eq, Structural, Debug)]
pub enum RegisterStep {
    /// Nothing: another server is having a new identity settled.
    Skip,
    /// The key.
    RegisterPk,
    /// That the peer is there.
    RegisterPeer,
}

/// The message that sends the key.
pub struct RegisterPk {
    pub id: String,
    pub uuid: Vec<u8>,
    pub pk: Vec<u8>,
    pub no_register_device: bool,
}

/// The message that says that the peer is there.
pub struct RegisterPeer {
    pub id: String,
    pub serial: i32,
}

/// The part of a host's name before the first dot, unless that is a number: then
/// the whole, for the host is an address.
pub open spec fn host_prefix_of(host: Seq<char>) -> Seq<char> {
    match addr_text::first_from(host, '.', 0) {
        Some(i) => if text::is_signed_number(host.take(i)) {
            host
        } else {
            host.take(i)
        },
        None => host,
    }
}

/// The relay server to use: the one the user set, unless it is of no use; else
/// the one the rendezvous server named; else the one beside that server.
pub open spec fn relay_server_of(
    configured: Seq<char>,
    unusable: bool,
    provided: Seq<char>,
    fallback: Seq<char>,
) -> Seq<char> {
    if configured.len() > 0 && !unusable {
        configured
    } else if provided.len() > 0 {
        provided
    } else {
        fallback
    }
}

impl RendezvousMediator {
    /// The name under which it is written down that `host` has the key.
    pub fn get_host_prefix(host: &str) -> (r: String)
        ensures
            r@ == host_prefix_of(host@),
    {
        let chars = text::chars_of(host);
        match addr_text::find_char(chars.as_slice(), '.') {
            Some(i) => {
                assert(chars@.subrange(0, i as int) == host@.take(i as int));
                if text::signed_number(vstd::slice::slice_subrange(chars.as_slice(), 0, i)) {
                    host.to_owned()
                } else {
                    host.substring_char(0, i).to_owned()
                }
            },
            None => host.to_owned(),
        }
    }

    /// The registration with `host`.
    pub fn new(host: String, ipv4: bool, keep_alive: i32) -> (r: RendezvousMediator)
        ensures
            r.host == host,
            r.host_prefix@ == host_prefix_of(host@),
            r.ipv4 == ipv4,
            r.keep_alive == keep_alive,
    {
        let host_prefix = Self::get_host_prefix(host.as_str());
        RendezvousMediator { ipv4, host, host_prefix, keep_alive }
    }

    /// What starting a registration does on `event`: what fails over one transport
    /// is tried over the other, unless registrations are to end.
    pub fn start(event: StartEvent) -> (r: StartStep)
        ensures
            r == start_step(event),
            event matches StartEvent::Begin { test_tcp, proxy, udp_disabled, .. } ==> (r == (
            StartStep::Run { transport: Transport::Tcp }) <==> test_tcp || proxy || udp_disabled),
            event matches StartEvent::Begin { test_tcp, proxy, udp_disabled, .. } ==> (r == (
            StartStep::Run { transport: Transport::Udp }) <==> !test_tcp && !proxy
                && !udp_disabled),
    {
        match event {
            StartEvent::Begin { test_tcp, proxy, websocket, udp_disabled } => {
                if rendezvous_transport::should_start_with_tcp(
                    test_tcp,
                    proxy,
                    websocket,
                    udp_disabled,
                    false,
                ) {
                    StartStep::Run { transport: Transport::Tcp }
                } else {
                    StartStep::Run { transport: Transport::Udp }
                }
            },
            StartEvent::First { transport, ok, should_exit } => {
                if ok {
                    StartStep::Done
                } else if should_exit {
                    StartStep::Fail
                } else {
                    match transport {
                        Transport::Udp => StartStep::Run { transport: Transport::Tcp },
                        Transport::Tcp => StartStep::Run { transport: Transport::Udp },
                    }
                }
            },
            StartEvent::Second { ok } => if ok {
                StartStep::Done
            } else {
                StartStep::Fail
            },
        }
    }

    /// Whether `message` fits: the time between signs of life that the server asks
    /// for can be counted in milliseconds.
    pub open spec fn takes(message: ServerMessage) -> bool {
        message matches ServerMessage::RegisterPkResponse { keep_alive, .. } ==> keep_alive * 1000
            <= i32::MAX
    }

    /// What to do on a message of the server.
    pub fn handle_resp(&self, message: ServerMessage, service: &mut Service) -> (r: RespStep)
        requires
            Self::takes(message),
        ensures
            r.answered == (message is RegisterPeerResponse || message is RegisterPkResponse),
            r.confirmed == (message matches ServerMessage::RegisterPeerResponse { request_pk }
                && !request_pk),
            r.keep_alive == match message {
                ServerMessage::RegisterPkResponse { keep_alive, .. } => if keep_alive > 0 {
                    Some((keep_alive * 1000) as i32)
                } else {
                    None
                },
                _ => None,
            },
            final(service).should_exit == old(service).should_exit,
            final(service).manual_restarted == old(service).manual_restarted,
            final(service).sent_register_pk == old(service).sent_register_pk,
            final(service).solving@ == match message {
                ServerMessage::RegisterPkResponse { result: PkResult::Accepted, .. } => Seq::empty(),
                ServerMessage::RegisterPkResponse { result: PkResult::UuidMismatch, .. } => if old(
                    service,
                ).is_free_for(self.host@) {
                    self.host@
                } else {
                    old(service).solving@
                },
                _ => old(service).solving@,
            },
            match message {
                ServerMessage::RegisterPeerResponse { request_pk } => if request_pk {
                    r.action is RegisterPk
                } else {
                    r.action is Nothing
                },
                ServerMessage::RegisterPkResponse { result, .. } => match result {
                    PkResult::Accepted => r.action is ConfirmKey,
                    PkResult::UuidMismatch => if old(service).is_free_for(self.host@) {
                        r.action is NewIdentity
                    } else {
                        r.action is Nothing
                    },
                    PkResult::Other => r.action is Nothing,
                },
                ServerMessage::PunchHole => r.action is PunchHole,
                ServerMessage::RequestRelay => r.action is RequestRelay,
                ServerMessage::FetchLocalAddr => r.action is FetchLocalAddr,
                ServerMessage::ConfigureUpdate { rendezvous_servers: list, serial: number } => {
                    r.action matches RespAction::Configure { rendezvous_servers, serial }
                        && rendezvous_servers@ == text::joined(text::strings(list@), ","@)
                        && serial == number
                },
                ServerMessage::Other => r.action is Nothing,
            },
    {
        match message {
            ServerMessage::RegisterPeerResponse { request_pk } => {
                let action = if request_pk {
                    RespAction::RegisterPk
                } else {
                    RespAction::Nothing
                };
                RespStep { answered: true, confirmed: !request_pk, keep_alive: None, action }
            },
            ServerMessage::RegisterPkResponse { result, keep_alive } => {
                let action = match result {
                    PkResult::Accepted => {
                        service.solving = String::new();
                        RespAction::ConfirmKey
                    },
                    PkResult::UuidMismatch => {
                        if self.handle_uuid_mismatch(service) {
                            RespAction::NewIdentity
                        } else {
                            RespAction::Nothing
                        }
                    },
                    PkResult::Other => RespAction::Nothing,
                };
                let keep_alive: Option<i32> = if keep_alive > 0 {
                    Some(keep_alive * 1000)
                } else {
                    None
                };
                RespStep { answered: true, confirmed: false, keep_alive, action }
            },
            ServerMessage::PunchHole => no_answer(RespAction::PunchHole),
            ServerMessage::RequestRelay => no_answer(RespAction::RequestRelay),
            ServerMessage::FetchLocalAddr => no_answer(RespAction::FetchLocalAddr),
            ServerMessage::ConfigureUpdate { rendezvous_servers, serial } => {
                let rendezvous_servers = text::join(&rendezvous_servers, ",");
                no_answer(RespAction::Configure { rendezvous_servers, serial })
            },
            ServerMessage::Other => no_answer(RespAction::Nothing),
        }
    }

    /// Takes over how often the server will be heard of, as a message had it, after
    /// the action for that message. Where the action failed, all stays as it was.
    pub fn resp_done(&mut self, keep_alive: Option<i32>, ok: bool)
        ensures
            final(self).ipv4 == old(self).ipv4,
            final(self).host == old(self).host,
            final(self).host_prefix == old(self).host_prefix,
            final(self).keep_alive == if ok && keep_alive is Some {
                keep_alive->0
            } else {
                old(self).keep_alive
            },
    {
        if ok {
            if let Some(keep_alive) = keep_alive {
                self.keep_alive = keep_alive;
            }
        }
    }

    /// Asks all registrations to begin again where the list of servers changed.
    pub fn servers_changed(before: &Vec<String>, after: &Vec<String>, service: &mut Service) -> (r:
        bool)
        ensures
            r == (text::strings(before@) != text::strings(after@)),
            *final(service) == if r {
                Service { should_exit: true, manual_restarted: true, ..*old(service) }
            } else {
                *old(service)
            },
    {
        if text::same_strings(before, after) {
            false
        } else {
            Self::restart(service);
            true
        }
    }

    /// Whether the server may have a new identity settled; it then is the one that
    /// has.
    pub fn handle_uuid_mismatch(&self, service: &mut Service) -> (r: bool)
        ensures
            r == old(service).is_free_for(self.host@),
            final(service).solving@ == if r {
                self.host@
            } else {
                old(service).solving@
            },
            final(service).should_exit == old(service).should_exit,
            final(service).manual_restarted == old(service).manual_restarted,
            final(service).sent_register_pk == old(service).sent_register_pk,
    {
        if service.free_for(&self.host) {
            service.solving = self.host.clone();
            true
        } else {
            false
        }
    }

    /// The message that sends the key.
    pub fn register_pk(id: String, uuid: Vec<u8>, pk: Vec<u8>, no_register_device: bool) -> (r:
        RegisterPk)
        ensures
            r == (RegisterPk { id, uuid, pk, no_register_device }),
    {
        RegisterPk { id, uuid, pk, no_register_device }
    }

    /// Writes down that the key was sent.
    pub fn register_pk_sent(service: &mut Service)
        ensures
            *final(service) == (Service { sent_register_pk: true, ..*old(service) }),
    {
        service.sent_register_pk = true;
    }

    /// What to send to register: that the peer is there, once both the server and
    /// whoever keeps the settings have the key.
    pub fn register_peer(
        &self,
        service: &Service,
        key_confirmed: bool,
        host_key_confirmed: bool,
    ) -> (r: RegisterStep)
        ensures
            r == if !service.is_free_for(self.host@) {
                RegisterStep::Skip
            } else if !key_confirmed || !host_key_confirmed {
                RegisterStep::RegisterPk
            } else {
                RegisterStep::RegisterPeer
            },
    {
        if !service.free_for(&self.host) {
            RegisterStep::Skip
        } else if !key_confirmed || !host_key_confirmed {
            RegisterStep::RegisterPk
        } else {
            RegisterStep::RegisterPeer
        }
    }

    /// The message that says that the peer is there, whatever the server has of
    /// its key.
    pub fn register_peer_tcp(id: String, serial: i32) -> (r: RegisterPeer)
        ensures
            r == (RegisterPeer { id, serial }),
    {
        RegisterPeer { id, serial }
    }

    /// The relay server to use. `configured` is what the user set, `unusable`
    /// whether it only reaches this host or a test, and `fallback` the server
    /// beside this one.
    pub fn get_relay_server(
        configured: String,
        unusable: bool,
        provided_by_rendezvous_server: String,
        fallback: String,
    ) -> (r: String)
        ensures
            r@ == relay_server_of(
                configured@,
                unusable,
                provided_by_rendezvous_server@,
                fallback@,
            ),
            configured@.len() > 0 && !unusable ==> r@ == configured@,
            configured@.len() == 0 || unusable ==> if provided_by_rendezvous_server@.len() > 0 {
                r@ == provided_by_rendezvous_server@
            } else {
                r@ == fallback@
            },
    {
        if !configured.as_str().is_empty() && !unusable {
            configured
        } else if !provided_by_rendezvous_server.as_str().is_empty() {
            provided_by_rendezvous_server
        } else {
            fallback
        }
    }
}

// ---------------------------------------------------------------------------
// Sending the key again
// ---------------------------------------------------------------------------

/// The key as it was before the settings were read anew. If it changes by that,
/// and the old one was sent to a server, the new one has to be sent too.
pub struct CheckIfResendPk {
    pub pk: Option<Vec<u8>>,
}

/// What is known of a key.
pub open spec fn key_of(pk: Option<Vec<u8>>) -> Option<Seq<u8>> {
    match pk {
        Some(k) => Some(k@),
        None => None,
    }
}

impl CheckIfResendPk {
    pub fn new(cached_pk: Option<Vec<u8>>) -> (r: CheckIfResendPk)
        ensures
            r.pk == cached_pk,
    {
        CheckIfResendPk { pk: cached_pk }
    }

    /// Whether to write down that no server has the key, which has it sent again.
    pub fn must_resend(&self, cached_pk: &Option<Vec<u8>>, service: &Service) -> (r: bool)
        ensures
            r == (service.sent_register_pk && key_of(*cached_pk) != key_of(self.pk)),
            cached_pk is Some && self.pk is Some ==> r == (service.sent_register_pk
                && cached_pk->0@ != self.pk->0@),
            cached_pk is Some != self.pk is Some ==> r == service.sent_register_pk,
            cached_pk is None && self.pk is None ==> !r,
    {
        service.sent_register_pk && !same_key(cached_pk, &self.pk)
    }
}

fn same_key(a: &Option<Vec<u8>>, b: &Option<Vec<u8>>) -> (r: bool)
    ensures
        r == (key_of(*a) == key_of(*b)),
{
    match (a, b) {
        (Some(x), Some(y)) => {
            if x.len() != y.len() {
                assert(x@ != y@);
                return false;
            }
            let n: usize = x.len();
            let mut i: usize = 0;
            while i < n
                invariant
                    i <= n == x@.len() == y@.len(),
                    forall|k: int| 0 <= k < i ==> x@[k] == y@[k],
                    *a == Some(*x),
                    *b == Some(*y),
                decreases n - i,
            {
                if x[i] != y[i] {
                    assert(x@[i as int] != y@[i as int]);
                    return false;
                }
                i += 1;
            }
            assert(x@ == y@);
            true
        },
        (None, None) => true,
        _ => false,
    }
}

// ---------------------------------------------------------------------------
// Laws
// ---------------------------------------------------------------------------

/// One server at a time has a new identity settled: while one has, it may go on,
/// and no other may.
pub proof fn law_one_server_settles_at_a_time(
    service: Service,
    host: Seq<char>,
    other: Seq<char>,
)
    requires
        service.solving@ == host,
        host.len() > 0,
    ensures
        service.is_free_for(host),
        other != host ==> !service.is_free_for(other),
{
}

/// Once an identity is settled, every registration may go on.
pub proof fn law_settled_identity_frees_all(service: Service, host: Seq<char>)
    requires
        service.solving@.len() == 0,
    ensures
        service.is_free_for(host),
{
}

/// The wait after a round that failed makes up the least time of a round, to the
/// second; it is never longer than that.
pub proof fn law_rounds_keep_their_distance(round: Round, service: Service, now: u64)
    requires
        !service.manual_restarted,
        registration::elapsed_millis(now, round.started) < round.timeout,
    ensures
        ({
            let total = registration::elapsed_millis(now, round.started) + wait_after(
                round,
                service,
                now,
            );
            round.timeout - 1000 < total <= round.timeout
        }),
{
}

} // verus!
