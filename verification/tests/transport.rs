use luoda::rendezvous_transport::{should_fallback_to_tcp, should_start_with_tcp};

#[test]
fn windows_server_uses_udp_like_other_platforms() {
    assert!(!should_start_with_tcp(false, false, false, false, true));
    assert!(!should_start_with_tcp(false, false, false, false, false));
}

#[test]
fn udp_is_default_unless_tcp_is_requested() {
    assert!(!should_start_with_tcp(false, false, false, false, false));
    assert!(should_start_with_tcp(false, true, false, false, false));
    assert!(should_start_with_tcp(false, false, false, true, false));
}

#[test]
fn websocket_does_not_force_tcp_registration() {
    assert!(!should_start_with_tcp(false, false, true, false, false));
    // A proxy still does: no datagram gets through it.
    assert!(should_start_with_tcp(false, true, true, false, false));
    // So does switching UDP off.
    assert!(should_start_with_tcp(false, false, true, true, false));
}

#[test]
fn repeated_udp_registration_timeouts_trigger_tcp_fallback() {
    assert!(!should_fallback_to_tcp(1));
    assert!(!should_fallback_to_tcp(2));
    assert!(!should_fallback_to_tcp(3));
    assert!(should_fallback_to_tcp(4));
    assert!(should_fallback_to_tcp(5));
}

#[test]
fn a_test_build_starts_with_tcp() {
    assert!(should_start_with_tcp(true, false, false, false, false));
}
