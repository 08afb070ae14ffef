//! What the listener for direct connections does and what is written down of it,
//! said event by event.

use vstd::prelude::*;

use crate::direct_server;
use crate::direct_server::{
    DirectAction, DirectEvent, DirectPort, DirectServer, DirectStatus, MappingEvent, PortMapping,
    Setting,
};
use crate::text;

verus! {

// ---------------------------------------------------------------------------
// The port
// ---------------------------------------------------------------------------

/// The ports that a peer looks for are 21118 to 21128. A listener moves up by one
/// when its port is not free, from the last one back to the first.
pub proof fn law_ports_of_the_listener(port: int)
    ensures
        direct_server::in_direct_range(port) <==> 21_118 <= port <= 21_128,
        port < 21_128 ==> direct_server::next_direct_port(port) == port + 1,
        port >= 21_128 ==> direct_server::next_direct_port(port) == 21_118,
{
}

/// A port is in use once it was asked for, the first one where none was. Any of the
/// ports that a peer looks for is a good one.
pub proof fn law_the_port_in_use(port: DirectPort)
    ensures
        port.port is None ==> port.wf() && port.current() == 21_118 && port.next() == port,
        port.port matches Some(p) ==> port.current() == p && (port.wf() <==> 21_118 <= p <= 21_128),
        port.asked().port == Some(port.current()),
        port.port matches Some(p) ==> port.next().port == Some(
            if p < 21_128 {
                (p + 1) as i32
            } else {
                21_118
            },
        ),
{
}

// ---------------------------------------------------------------------------
// The listener
// ---------------------------------------------------------------------------

/// A listener that does not listen, on its turn. Switched off, it stays so, says so
/// and waits a second. Else it tries to listen on the port in use.
pub proof fn law_turn_of_a_closed_listener(server: DirectServer, port: DirectPort, disabled: bool)
    requires
        !server.listening,
    ensures
        ({
            let r = direct_server::outcome_of(server, port, DirectEvent::Poll { disabled });
            let used: i32 = if port.port is Some {
                port.port->0
            } else {
                21_118
            };
            &&& r.step.announce is None
            &&& !r.server.listening
            &&& disabled ==> {
                &&& r.step.action == (DirectAction::Sleep { wait: 1_000 })
                &&& r.step.status == Some(DirectStatus::Stopped)
                &&& r.server == server
                &&& r.port == port
            }
            &&& !disabled ==> {
                &&& r.step.action == (DirectAction::Bind { port: used })
                &&& r.step.status is None
                &&& r.server.port == used
                &&& r.port.port == Some(used)
            }
        }),
{
}

/// A listener that listens, on its turn. It waits a second for a peer, and nothing
/// changes by that, as long as it is not switched off and its port is the one in use.
/// Else it closes, says so, and goes back to the first port.
pub proof fn law_turn_of_an_open_listener(server: DirectServer, port: DirectPort, disabled: bool)
    requires
        server.listening,
    ensures
        ({
            let r = direct_server::outcome_of(server, port, DirectEvent::Poll { disabled });
            let used: i32 = if port.port is Some {
                port.port->0
            } else {
                21_118
            };
            let open = !disabled && server.port == used;
            &&& r.step.announce is None
            &&& r.server.port == server.port
            &&& r.server.listening == open
            &&& open ==> {
                &&& r.step.action == (DirectAction::Accept { limit: 1_000 })
                &&& r.step.status is None
                &&& r.port.port == Some(used)
            }
            &&& !open ==> {
                &&& r.step.action == DirectAction::Close
                &&& r.step.status == Some(DirectStatus::Stopped)
                &&& port.port is Some || !disabled ==> r.port.port == Some(21_118i32)
                &&& port.port is None && disabled ==> r.port.port is None
            }
        }),
{
}

/// What else happens to a listener. With its port it listens, says so and announces
/// the port, and has its turn at once. Without, it says so, moves to the next port
/// and waits two seconds. A peer is served; where none comes it waits a tenth of a
/// second.
pub proof fn law_events_of_a_listener(server: DirectServer, port: DirectPort)
    ensures
        ({
            let bound = direct_server::outcome_of(server, port, DirectEvent::Bound);
            let failed = direct_server::outcome_of(server, port, DirectEvent::BindFailed);
            let accepted = direct_server::outcome_of(server, port, DirectEvent::Accepted);
            let no_peer = direct_server::outcome_of(server, port, DirectEvent::NoPeer);
            &&& bound.server.listening && bound.server.port == server.port && bound.port == port
            &&& bound.step.status == Some(DirectStatus::Listening)
            &&& bound.step.announce == Some(server.port)
            &&& bound.step.action == DirectAction::Poll
            &&& failed.server == server
            &&& failed.step.status == Some(DirectStatus::Error)
            &&& failed.step.announce is None
            &&& failed.step.action == (DirectAction::Sleep { wait: 2_000 })
            &&& port.port is None ==> failed.port.port is None
            &&& port.port matches Some(p) ==> failed.port.port == Some(
                if p < 21_128 {
                    (p + 1) as i32
                } else {
                    21_118
                },
            )
            &&& accepted.server == server && accepted.port == port
            &&& accepted.step.status is None && accepted.step.announce is None
            &&& accepted.step.action == DirectAction::Serve
            &&& no_peer.server == server && no_peer.port == port
            &&& no_peer.step.status is None && no_peer.step.announce is None
            &&& no_peer.step.action == (DirectAction::Sleep { wait: 100 })
        }),
{
}

// ---------------------------------------------------------------------------
// What is written down
// ---------------------------------------------------------------------------

/// A list of settings says what each of them says, in their order.
pub proof fn law_settings_one_by_one(list: Seq<Setting>, i: int)
    requires
        0 <= i < list.len(),
    ensures
        direct_server::settings(list).len() == list.len(),
        direct_server::settings(list)[i] == (list[i].name@, list[i].value@),
{
}

/// The words for the states.
pub proof fn law_words_for_states()
    ensures
        DirectStatus::Starting.word() == "starting"@,
        DirectStatus::Listening.word() == "listening"@,
        DirectStatus::Stopped.word() == "stopped"@,
        DirectStatus::Error.word() == "error"@,
{
}

/// A state that is written already is not written again. Any other is, and unless it
/// is that of a listener that listens, so is that no port is open to the outside and
/// that the router maps none.
pub proof fn law_written_states(current: Seq<char>)
    ensures
        ({
            let starting = direct_server::status_settings(current, DirectStatus::Starting);
            let listening = direct_server::status_settings(current, DirectStatus::Listening);
            let stopped = direct_server::status_settings(current, DirectStatus::Stopped);
            let error = direct_server::status_settings(current, DirectStatus::Error);
            let closed = "direct-access-public-port"@;
            &&& current == "starting"@ ==> starting.len() == 0
            &&& current != "starting"@ ==> starting == seq![
                ("direct-access-status"@, "starting"@),
                (closed, Seq::empty()),
                ("upnp-status"@, "starting"@),
            ]
            &&& current == "listening"@ ==> listening.len() == 0
            &&& current != "listening"@ ==> listening == seq![
                ("direct-access-status"@, "listening"@),
            ]
            &&& current == "stopped"@ ==> stopped.len() == 0
            &&& current != "stopped"@ ==> stopped == seq![
                ("direct-access-status"@, "stopped"@),
                (closed, Seq::empty()),
                ("upnp-status"@, "stopped"@),
            ]
            &&& current == "error"@ ==> error.len() == 0
            &&& current != "error"@ ==> error == seq![
                ("direct-access-status"@, "error"@),
                (closed, Seq::empty()),
                ("upnp-status"@, "error"@),
            ]
        }),
{
}

// ---------------------------------------------------------------------------
// The mapping on the router
// ---------------------------------------------------------------------------

/// The router is asked as long as it maps nothing and was asked less than three
/// times before.
pub proof fn law_when_the_router_is_asked(mapping: PortMapping)
    ensures
        mapping.wf() <==> 1 <= mapping.attempt <= 4,
        mapping.decided() <==> mapping.mapped is Some || mapping.attempt >= 4,
{
}

/// What is written down in the end: the port of the router where it maps one, and
/// else the last error.
pub proof fn law_what_the_router_did(mapping: PortMapping, external: u16)
    ensures
        mapping.mapped == Some(external) ==> mapping.outcome() == seq![
            ("direct-access-public-port"@, text::number_text(external as nat, 10)),
            ("upnp-error"@, ""@),
            ("upnp-status"@, "ok"@),
        ],
        mapping.mapped is None ==> mapping.outcome() == seq![
            ("upnp-error"@, mapping.last_error@),
            ("upnp-status"@, "fail"@),
        ],
{
}

/// A look changes nothing; a mapping is taken down and counts as no attempt; a
/// failure counts as one, and its error is the last one.
pub proof fn law_attempts_are_counted(
    mapping: PortMapping,
    current: bool,
    external: u16,
    error: String,
)
    requires
        mapping.attempt <= 3,
    ensures
        ({
            let looked = mapping.after(MappingEvent::Checked { current });
            let mapped = mapping.after(MappingEvent::Mapped { external });
            let failed = mapping.after(MappingEvent::Failed { error });
            &&& looked == mapping
            &&& mapped.mapped == Some(external)
            &&& mapped.port == mapping.port
            &&& mapped.attempt == mapping.attempt
            &&& mapped.last_error == mapping.last_error
            &&& failed.mapped == mapping.mapped
            &&& failed.port == mapping.port
            &&& failed.attempt == mapping.attempt + 1
            &&& failed.last_error == error
        }),
{
}

} // verus!
