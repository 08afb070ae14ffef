//! The listener for direct connections: its port, its state, and the port
//! mapping on the router that makes it reachable from outside.

use vstd::prelude::*;

use crate::addr::IpAddr;
use crate::direct_access;
use crate::direct_access::DIRECT_PORT_RANGE;
use crate::text;

verus! {

/// The port for direct connections.
pub const DEFAULT_DIRECT_PORT: i32 = 21118;

// ---------------------------------------------------------------------------
// The port
// ---------------------------------------------------------------------------

/// The port to listen on; none before it is asked for the first time.
pub struct DirectPort {
    pub port: Option<i32>,
}

/// Whether `port` is one that a peer looks for.
pub open spec fn in_direct_range(port: int) -> bool {
    DEFAULT_DIRECT_PORT <= port <= DEFAULT_DIRECT_PORT + DIRECT_PORT_RANGE
}

/// The port to try after `port` was not free: the next one, and after the last
/// the first.
pub open spec fn next_direct_port(port: int) -> int {
    if port < DEFAULT_DIRECT_PORT + DIRECT_PORT_RANGE {
        port + 1
    } else {
        DEFAULT_DIRECT_PORT as int
    }
}

impl DirectPort {
    /// The port is one that a peer looks for.
    pub open spec fn wf(self) -> bool {
        self.port matches Some(p) ==> in_direct_range(p as int)
    }

    /// The port that is used now.
    pub open spec fn current(self) -> i32 {
        match self.port {
            Some(p) => p,
            None => DEFAULT_DIRECT_PORT,
        }
    }

    /// No port has been asked for.
    pub fn new() -> (r: DirectPort)
        ensures
            r.wf(),
            r.port is None,
    {
        DirectPort { port: None }
    }

    /// The port to listen on.
    pub fn get_direct_port(&mut self) -> (r: i32)
        ensures
            r == old(self).current(),
            final(self).port == Some(r),
            old(self).wf() ==> final(self).wf(),
    {
        match self.port {
            Some(p) => p,
            None => {
                self.port = Some(DEFAULT_DIRECT_PORT);
                DEFAULT_DIRECT_PORT
            },
        }
    }

    /// Leaves a port that was not free for the next one.
    pub fn invalidate_direct_port(&mut self)
        ensures
            final(self).port == match old(self).port {
                Some(p) => Some(next_direct_port(p as int) as i32),
                None => None,
            },
            old(self).wf() ==> final(self).wf(),
    {
        if let Some(p) = self.port {
            if p < DEFAULT_DIRECT_PORT + DIRECT_PORT_RANGE as i32 {
                self.port = Some(p + 1);
            } else {
                self.port = Some(DEFAULT_DIRECT_PORT);
            }
        }
    }

    /// Goes back to the default port, so that the next listener tries it first.
    pub fn reset_direct_port(&mut self)
        ensures
            final(self).port == match old(self).port {
                Some(_) => Some(DEFAULT_DIRECT_PORT),
                None => None,
            },
            final(self).wf(),
    {
        if self.port.is_some() {
            self.port = Some(DEFAULT_DIRECT_PORT);
        }
    }
}

/// The port to listen on, for those who only announce it.
pub fn ensure_direct_port(port: &mut DirectPort) -> (r: i32)
    ensures
        r == old(port).current(),
        final(port).port == Some(r),
        old(port).wf() ==> final(port).wf(),
{
    port.get_direct_port()
}

/// The port after `n` ports in a row were not free.
pub open spec fn port_after(port: int, n: nat) -> int
    decreases n,
{
    if n == 0 {
        port
    } else {
        next_direct_port(port_after(port, (n - 1) as nat))
    }
}

proof fn lemma_port_after(n: nat)
    requires
        n <= DIRECT_PORT_RANGE,
    ensures
        port_after(DEFAULT_DIRECT_PORT as int, n) == DEFAULT_DIRECT_PORT + n,
    decreases n,
{
    if n > 0 {
        lemma_port_after((n - 1) as nat);
    }
}

/// Eleven ports are tried in turn, from the default one up, each once; then the
/// default one comes again.
pub proof fn law_ports_are_tried_in_turn(n: nat)
    requires
        n <= DIRECT_PORT_RANGE,
    ensures
        port_after(DEFAULT_DIRECT_PORT as int, n) == DEFAULT_DIRECT_PORT + n,
        port_after(DEFAULT_DIRECT_PORT as int, (DIRECT_PORT_RANGE + 1) as nat)
            == DEFAULT_DIRECT_PORT,
{
    lemma_port_after(n);
    lemma_port_after(DIRECT_PORT_RANGE as nat);
}

/// Whatever port a listener got, a peer that has nothing but its address tries
/// that port.
pub proof fn law_every_port_is_looked_for(port: DirectPort, ip: IpAddr)
    requires
        port.wf(),
    ensures
        direct_access::hosts_at(ip, DEFAULT_DIRECT_PORT as u16).contains(
            crate::addr_text::socket_text(
                crate::addr::SocketAddr::at(ip, port.current() as u16),
            ),
        ),
{
    let hosts = direct_access::hosts_at(ip, DEFAULT_DIRECT_PORT as u16);
    let i = port.current() - DEFAULT_DIRECT_PORT;
    assert(0 <= i < hosts.len());
    assert(hosts[i] == crate::addr_text::socket_text(
        crate::addr::SocketAddr::at(ip, port.current() as u16),
    ));
}

// ---------------------------------------------------------------------------
// What is written down of the state
// ---------------------------------------------------------------------------

/// The state of the listener as the user sees it.
#[derive(Clone, Copy, PartialEq, Eq, Structural, Debug)]
pub enum DirectStatus {
    Starting,
    Listening,
    Stopped,
    Error,
}

impl DirectStatus {
    /// The word for the state.
    pub open spec fn word(self) -> Seq<char> {
        match self {
            DirectStatus::Starting => "starting"@,
            DirectStatus::Listening => "listening"@,
            DirectStatus::Stopped => "stopped"@,
            DirectStatus::Error => "error"@,
        }
    }

    pub fn as_str(self) -> (r: &'static str)
        ensures
            r@ == self.word(),
    {
        match self {
            DirectStatus::Starting => "starting",
            DirectStatus::Listening => "listening",
            DirectStatus::Stopped => "stopped",
            DirectStatus::Error => "error",
        }
    }
}

/// A setting that is written: its name and its value.
pub struct Setting {
    pub name: &'static str,
    pub value: String,
}

/// What a list of settings says.
pub open spec fn settings(v: Seq<Setting>) -> Seq<(Seq<char>, Seq<char>)> {
    v.map_values(|s: Setting| (s.name@, s.value@))
}

/// The settings that change when the state becomes `status` and `current` is
/// what is written of it: none where that is the same. Where the listener does
/// not listen, no port is open to the outside.
pub open spec fn status_settings(current: Seq<char>, status: DirectStatus) -> Seq<
    (Seq<char>, Seq<char>),
> {
    if current == status.word() {
        Seq::empty()
    } else if status == DirectStatus::Listening {
        seq![("direct-access-status"@, status.word())]
    } else {
        seq![
            ("direct-access-status"@, status.word()),
            ("direct-access-public-port"@, Seq::empty()),
            ("upnp-status"@, status.word()),
        ]
    }
}

fn add_setting(list: &mut Vec<Setting>, name: &'static str, value: String)
    ensures
        settings(final(list)@) == settings(old(list)@).push((name@, value@)),
{
    let ghost before = settings(list@);
    list.push(Setting { name, value });
    assert(settings(list@) == before.push((name@, value@)));
}

fn no_settings() -> (r: Vec<Setting>)
    ensures
        settings(r@) == Seq::<(Seq<char>, Seq<char>)>::empty(),
{
    let r: Vec<Setting> = Vec::new();
    assert(settings(r@) == Seq::<(Seq<char>, Seq<char>)>::empty());
    r
}

/// The settings to write when the state becomes `status`.
pub fn set_direct_access_status(current: &str, status: DirectStatus) -> (r: Vec<Setting>)
    ensures
        settings(r@) == status_settings(current@, status),
{
    let mut r = no_settings();
    if !text::same_text(current, status.as_str()) {
        add_setting(&mut r, "direct-access-status", status.as_str().to_owned());
        if status != DirectStatus::Listening {
            add_setting(&mut r, "direct-access-public-port", String::new());
            add_setting(&mut r, "upnp-status", status.as_str().to_owned());
        }
    }
    assert(settings(r@) == status_settings(current@, status));
    r
}

/// The settings to write once the listener listens on `port`. Where the system
/// can ask the router for a mapping, that is still to come.
pub fn listening_settings(port: i32, can_map: bool) -> (r: Vec<Setting>)
    requires
        port >= 0,
    ensures
        settings(r@) == if can_map {
            seq![
                ("direct-access-port"@, text::number_text(port as nat, 10)),
                ("upnp-status"@, "pending"@),
                ("upnp-error"@, ""@),
                ("direct-access-public-port"@, ""@),
            ]
        } else {
            seq![
                ("direct-access-port"@, text::number_text(port as nat, 10)),
                ("upnp-status"@, "unsupported"@),
            ]
        },
{
    let mut r = no_settings();
    add_setting(&mut r, "direct-access-port", text::decimal(port as u64));
    if can_map {
        add_setting(&mut r, "upnp-status", "pending".to_owned());
        add_setting(&mut r, "upnp-error", "".to_owned());
        add_setting(&mut r, "direct-access-public-port", "".to_owned());
    } else {
        add_setting(&mut r, "upnp-status", "unsupported".to_owned());
    }
    r
}

// ---------------------------------------------------------------------------
// The listener
// ---------------------------------------------------------------------------

/// The listener: whether it listens, and on which port it does or tries to.
pub struct DirectServer {
    pub listening: bool,
    pub port: i32,
}

/// What happened to the listener.
#[derive(Clone, Copy, PartialEq, Eq, Structural, Debug)]
pub enum DirectEvent {
    /// Its turn has come; the user may have switched it off.
    Poll { disabled: bool },
    /// It got its port.
    Bound,
    /// Its port was not free.
    BindFailed,
    /// A peer connected.
    Accepted,
    /// No peer connected within the time it waits.
    NoPeer,
}

/// What to do for the listener.
#[derive(Clone, Copy, PartialEq, Eq, Structural, Debug)]
pub enum DirectAction {
    /// Listen on a port.
    Bind { port: i32 },
    /// Wait for a peer, that many milliseconds at most.
    Accept { limit: u64 },
    /// Serve the peer, then poll again.
    Serve,
    /// Wait that many milliseconds, then poll again.
    Sleep { wait: u64 },
    /// Close the listener, then poll again.
    Close,
    /// Poll at once; the user did not switch it off.
    Poll,
}

/// What to do for the listener, and the state to write down first.
pub struct DirectStep {
    pub status: Option<DirectStatus>,
    /// The port to announce as open for direct connections.
    pub announce: Option<i32>,
    pub action: DirectAction,
}

/// The listener and its port after a step, and the step.
pub struct DirectOutcome {
    pub server: DirectServer,
    pub port: DirectPort,
    pub step: DirectStep,
}

impl DirectServer {
    /// A listener that was not started yet.
    pub fn new() -> (r: DirectServer)
        ensures
            !r.listening,
            r.port == 0,
    {
        DirectServer { listening: false, port: 0 }
    }
}

impl DirectPort {
    /// The port once it was asked for.
    pub open spec fn asked(self) -> DirectPort {
        DirectPort { port: Some(self.current()) }
    }

    /// The port to try after this one was not free.
    pub open spec fn next(self) -> DirectPort {
        match self.port {
            Some(p) => DirectPort { port: Some(next_direct_port(p as int) as i32) },
            None => self,
        }
    }
}

/// A step that only does something.
pub open spec fn only(action: DirectAction) -> DirectStep {
    DirectStep { status: None, announce: None, action }
}

/// A step that writes down a state before it does something.
pub open spec fn with_status(status: DirectStatus, action: DirectAction) -> DirectStep {
    DirectStep { status: Some(status), announce: None, action }
}

/// What happens when it is the listener's turn. One that does not listen does so
/// now, unless it is switched off; one that listens waits for a peer, unless it is
/// switched off or another port is to be used.
pub open spec fn turn_of(server: DirectServer, port: DirectPort, disabled: bool) -> DirectOutcome {
    if !server.listening && disabled {
        DirectOutcome {
            server,
            port,
            step: with_status(DirectStatus::Stopped, DirectAction::Sleep { wait: 1000 }),
        }
    } else if !server.listening {
        DirectOutcome {
            server: DirectServer { listening: false, port: port.current() },
            port: port.asked(),
            step: only(DirectAction::Bind { port: port.current() }),
        }
    } else if disabled || server.port != port.current() {
        DirectOutcome {
            server: DirectServer { listening: false, port: server.port },
            port: if disabled && port.port is None {
                port
            } else {
                DirectPort { port: Some(DEFAULT_DIRECT_PORT) }
            },
            step: with_status(DirectStatus::Stopped, DirectAction::Close),
        }
    } else {
        DirectOutcome {
            server,
            port: port.asked(),
            step: only(DirectAction::Accept { limit: 1000 }),
        }
    }
}

/// What happens on `event`.
pub open spec fn outcome_of(server: DirectServer, port: DirectPort, event: DirectEvent) ->
    DirectOutcome {
    match event {
        DirectEvent::Poll { disabled } => turn_of(server, port, disabled),
        DirectEvent::Bound => DirectOutcome {
            server: DirectServer { listening: true, port: server.port },
            port,
            step: DirectStep {
                status: Some(DirectStatus::Listening),
                announce: Some(server.port),
                action: DirectAction::Poll,
            },
        },
        DirectEvent::BindFailed => DirectOutcome {
            server,
            port: port.next(),
            step: with_status(DirectStatus::Error, DirectAction::Sleep { wait: 2000 }),
        },
        DirectEvent::Accepted => DirectOutcome { server, port, step: only(DirectAction::Serve) },
        DirectEvent::NoPeer => DirectOutcome {
            server,
            port,
            step: only(DirectAction::Sleep { wait: 100 }),
        },
    }
}

/// What the listener `server` does on `event`. `port` is the port to use.
pub fn direct_server(server: &mut DirectServer, port: &mut DirectPort, event: DirectEvent) -> (r:
    DirectStep)
    requires
        old(port).wf(),
    ensures
        final(port).wf(),
        outcome_of(*old(server), *old(port), event) == (DirectOutcome {
            server: *final(server),
            port: *final(port),
            step: r,
        }),
{
    match event {
        DirectEvent::Poll { disabled } => {
            if !server.listening {
                if disabled {
                    return DirectStep {
                        status: Some(DirectStatus::Stopped),
                        announce: None,
                        action: DirectAction::Sleep { wait: 1000 },
                    };
                }
                let p: i32 = port.get_direct_port();
                server.port = p;
                return DirectStep {
                    status: None,
                    announce: None,
                    action: DirectAction::Bind { port: p },
                };
            }
            if disabled || server.port != port.get_direct_port() {
                server.listening = false;
                port.reset_direct_port();
                return DirectStep {
                    status: Some(DirectStatus::Stopped),
                    announce: None,
                    action: DirectAction::Close,
                };
            }
            DirectStep { status: None, announce: None, action: DirectAction::Accept { limit: 1000 } }
        },
        DirectEvent::Bound => {
            server.listening = true;
            DirectStep {
                status: Some(DirectStatus::Listening),
                announce: Some(server.port),
                action: DirectAction::Poll,
            }
        },
        DirectEvent::BindFailed => {
            port.invalidate_direct_port();
            DirectStep {
                status: Some(DirectStatus::Error),
                announce: None,
                action: DirectAction::Sleep { wait: 2000 },
            }
        },
        DirectEvent::Accepted => {
            DirectStep { status: None, announce: None, action: DirectAction::Serve }
        },
        DirectEvent::NoPeer => {
            DirectStep {
                status: None,
                announce: None,
                action: DirectAction::Sleep { wait: 100 },
            }
        },
    }
}

/// A listener that gets the port it asks for announces that port, which is one
/// that a peer looks for, and then waits for peers.
pub proof fn law_listener_announces_its_port(server: DirectServer, port: DirectPort)
    requires
        port.wf(),
        !server.listening,
    ensures
        ({
            let asked = outcome_of(server, port, DirectEvent::Poll { disabled: false });
            let bound = outcome_of(asked.server, asked.port, DirectEvent::Bound);
            let next = outcome_of(bound.server, bound.port, DirectEvent::Poll { disabled: false });
            &&& asked.step.action matches DirectAction::Bind { port: p }
            &&& in_direct_range(p as int)
            &&& bound.step.announce == Some(p)
            &&& bound.step.status == Some(DirectStatus::Listening)
            &&& next.step.action is Accept
            &&& next.server == bound.server
        }),
{
}

/// A listener that does not get its port tries the next one on its next turn.
pub proof fn law_listener_goes_on_to_the_next_port(server: DirectServer, port: DirectPort)
    requires
        port.wf(),
        !server.listening,
    ensures
        ({
            let asked = outcome_of(server, port, DirectEvent::Poll { disabled: false });
            let failed = outcome_of(asked.server, asked.port, DirectEvent::BindFailed);
            let next = outcome_of(failed.server, failed.port, DirectEvent::Poll { disabled: false });
            &&& failed.step.status == Some(DirectStatus::Error)
            &&& next.step.action == (DirectAction::Bind {
                port: next_direct_port(port.current() as int) as i32,
            })
        }),
{
}

/// A listener that is switched off closes, says so, and starts on the default port
/// when it is switched on again.
pub proof fn law_listener_can_be_switched_off(server: DirectServer, port: DirectPort)
    requires
        port.wf(),
        server.listening,
    ensures
        ({
            let off = outcome_of(server, port, DirectEvent::Poll { disabled: true });
            let still = outcome_of(off.server, off.port, DirectEvent::Poll { disabled: true });
            let on = outcome_of(still.server, still.port, DirectEvent::Poll { disabled: false });
            &&& off.step.action == DirectAction::Close
            &&& off.step.status == Some(DirectStatus::Stopped)
            &&& !off.server.listening
            &&& still.step.action is Sleep
            &&& on.step.action == (DirectAction::Bind { port: DEFAULT_DIRECT_PORT })
        }),
{
}

// ---------------------------------------------------------------------------
// The mapping on the router
// ---------------------------------------------------------------------------

/// How often the router is asked.
pub const MAPPING_ATTEMPTS: u64 = 3;

/// The attempts to have the router map a port.
pub struct PortMapping {
    pub port: u16,
    /// The number of the attempt that is next or under way, from 1 on.
    pub attempt: u64,
    pub mapped: Option<u16>,
    pub last_error: String,
}

/// What happened to the mapping.
pub enum MappingEvent {
    /// Whether the listener still listens on the port was looked up.
    Checked { current: bool },
    /// The router maps this port of its own to the listener.
    Mapped { external: u16 },
    /// The router refused.
    Failed { error: String },
}

/// What to do for the mapping.
pub enum MappingAction {
    /// Look up whether the listener still listens on the port.
    Check,
    /// Ask the router.
    Ask,
    /// Wait that many seconds, then look up.
    Wait { seconds: u64 },
    /// Write the settings; that is the end.
    Finish { settings: Vec<Setting> },
    /// The listener is another one by now; that is the end.
    Abandon,
}

/// Whether the listener still listens on `port`, as the settings say.
pub fn listens_on(port: u16, port_setting: &str, status_setting: &str) -> (r: bool)
    ensures
        r == (port_setting@ == text::number_text(port as nat, 10) && status_setting@
            == "listening"@),
{
    let wanted = text::decimal(port as u64);
    text::same_text(port_setting, wanted.as_str()) && text::same_text(status_setting, "listening")
}

impl PortMapping {
    /// The number of the attempt is in range.
    pub open spec fn wf(self) -> bool {
        1 <= self.attempt <= MAPPING_ATTEMPTS + 1
    }

    /// Whether the router is not asked any more.
    pub open spec fn decided(self) -> bool {
        self.mapped is Some || self.attempt > MAPPING_ATTEMPTS
    }

    /// What is written down in the end.
    pub open spec fn outcome(self) -> Seq<(Seq<char>, Seq<char>)> {
        match self.mapped {
            Some(external) => seq![
                ("direct-access-public-port"@, text::number_text(external as nat, 10)),
                ("upnp-error"@, ""@),
                ("upnp-status"@, "ok"@),
            ],
            None => seq![("upnp-error"@, self.last_error@), ("upnp-status"@, "fail"@)],
        }
    }

    /// The attempts after `event`.
    pub open spec fn after(self, event: MappingEvent) -> PortMapping {
        match event {
            MappingEvent::Checked { .. } => self,
            MappingEvent::Mapped { external } => PortMapping { mapped: Some(external), ..self },
            MappingEvent::Failed { error } => PortMapping {
                attempt: (self.attempt + 1) as u64,
                last_error: error,
                ..self
            },
        }
    }

    /// No attempt was made yet.
    pub fn new(port: u16) -> (r: PortMapping)
        ensures
            r.wf(),
            r.port == port,
            r.attempt == 1,
            r.mapped is None,
            r.last_error@.len() == 0,
    {
        PortMapping { port, attempt: 1, mapped: None, last_error: String::new() }
    }

    /// What to do on `event`.
    pub fn step(&mut self, event: MappingEvent) -> (r: MappingAction)
        requires
            old(self).wf(),
            !(event is Checked) ==> !old(self).decided(),
        ensures
            final(self).wf(),
            *final(self) == old(self).after(event),
            match event {
                MappingEvent::Checked { current } => if !current {
                    r is Abandon
                } else if !old(self).decided() {
                    r is Ask
                } else {
                    r matches MappingAction::Finish { settings: s } && settings(s@) == old(
                        self,
                    ).outcome()
                },
                MappingEvent::Mapped { .. } => r is Check,
                MappingEvent::Failed { .. } => if old(self).attempt < 3 {
                    r == (MappingAction::Wait { seconds: (2 * old(self).attempt) as u64 })
                } else {
                    r is Check
                },
            },
    {
        match event {
            MappingEvent::Checked { current } => {
                if !current {
                    return MappingAction::Abandon;
                }
                if self.mapped.is_none() && self.attempt <= MAPPING_ATTEMPTS {
                    return MappingAction::Ask;
                }
                let mut s = no_settings();
                match self.mapped {
                    Some(external) => {
                        add_setting(
                            &mut s,
                            "direct-access-public-port",
                            text::decimal(external as u64),
                        );
                        add_setting(&mut s, "upnp-error", "".to_owned());
                        add_setting(&mut s, "upnp-status", "ok".to_owned());
                    },
                    None => {
                        add_setting(&mut s, "upnp-error", self.last_error.clone());
                        add_setting(&mut s, "upnp-status", "fail".to_owned());
                    },
                }
                assert(settings(s@) == self.outcome());
                MappingAction::Finish { settings: s }
            },
            MappingEvent::Mapped { external } => {
                self.mapped = Some(external);
                MappingAction::Check
            },
            MappingEvent::Failed { error } => {
                self.last_error = error;
                let attempt: u64 = self.attempt;
                self.attempt = attempt + 1;
                if attempt < MAPPING_ATTEMPTS {
                    MappingAction::Wait { seconds: 2 * attempt }
                } else {
                    MappingAction::Check
                }
            },
        }
    }
}

/// The router is asked three times at most, and once it maps the port it is not
/// asked again. After three failures the last error is what is written down.
pub proof fn law_router_is_asked_three_times(
    start: PortMapping,
    first: String,
    second: String,
    third: String,
    external: u16,
)
    requires
        start.attempt == 1,
        start.mapped is None,
    ensures
        ({
            let one = start.after(MappingEvent::Failed { error: first });
            let two = one.after(MappingEvent::Failed { error: second });
            let three = two.after(MappingEvent::Failed { error: third });
            &&& !start.decided()
            &&& !one.decided()
            &&& !two.decided()
            &&& three.decided()
            &&& three.outcome() == seq![
                ("upnp-error"@, third@),
                ("upnp-status"@, "fail"@),
            ]
            &&& start.after(MappingEvent::Mapped { external }).decided()
            &&& one.after(MappingEvent::Mapped { external }).decided()
            &&& two.after(MappingEvent::Mapped { external }).decided()
        }),
{
}

} // verus!
