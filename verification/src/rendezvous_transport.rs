//! Which transport a peer registers over.

use vstd::prelude::*;

verus! {

/// How many registrations over UDP may fail in a row.
pub const UDP_REGISTRATION_FAILURE_LIMIT: i64 = 4;

/// Whether to register over TCP first. Only UDP lets the server see the peer's
/// real address and port, without which no hole can be punched to it, so TCP
/// comes first only where a test or a proxy asks for it or UDP is switched off.
/// Neither a web socket nor the kind of system is a reason.
pub fn should_start_with_tcp(
    test_tcp: bool,
    proxy: bool,
    websocket: bool,
    udp_disabled: bool,
    _windows_server: bool,
) -> (r: bool)
    ensures
        r == (test_tcp || proxy || udp_disabled),
{
    let _ = websocket;
    test_tcp || proxy || udp_disabled
}

/// Whether so many failures in a row are reason to leave UDP for TCP.
pub fn should_fallback_to_tcp(consecutive_failures: i64) -> (r: bool)
    ensures
        r == (consecutive_failures >= UDP_REGISTRATION_FAILURE_LIMIT),
        r <==> consecutive_failures >= 4,
{
    consecutive_failures >= UDP_REGISTRATION_FAILURE_LIMIT
}

} // verus!
