//! Network adapters and which of them are not real hardware.

use vstd::prelude::*;

use crate::addr::{Ipv4Addr, Ipv6Addr};
use crate::text;

verus! {

/// An IPv4 address of an adapter, and how many of its leading bits name the
/// network.
#[derive(Clone, Copy, PartialEq, Eq, Structural, Debug)]
pub struct Ipv4Net {
    pub addr: Ipv4Addr,
    pub prefix_len: u8,
}

/// A network adapter of this machine.
pub struct Interface {
    pub name: String,
    pub ipv4: Vec<Ipv4Net>,
    pub ipv6: Vec<Ipv6Addr>,
    pub mac: Option<[u8; 6]>,
}

/// Whether an adapter's name, in lower case, is that of a virtual machine, a
/// tunnel or another adapter that leads to no local network.
pub open spec fn names_virtual(name: Seq<char>) -> bool {
    ||| text::has_part(name, "virtual"@)
    ||| text::has_part(name, "vethernet"@)
    ||| text::has_part(name, "vmware"@)
    ||| text::has_part(name, "virtualbox"@)
    ||| text::has_part(name, "vbox"@)
    ||| text::has_part(name, "hyper-v"@)
    ||| text::has_part(name, "wsl"@)
    ||| text::has_part(name, "docker"@)
    ||| text::has_part(name, "tailscale"@)
    ||| text::has_part(name, "wireguard"@)
    ||| text::has_part(name, "vpn"@)
    ||| text::has_part(name, "tunnel"@)
    ||| text::has_part(name, "loopback"@)
    ||| text::has_part(name, "bluetooth"@)
    ||| text::has_part(name, "bt"@)
    ||| text::has_part(name, "pseudo"@)
    ||| text::has_part(name, "tun"@)
    ||| text::has_part(name, "tap"@)
    ||| text::has_part(name, "ppp"@)
    ||| text::has_part(name, "isatap"@)
    ||| text::has_part(name, "teredo"@)
    ||| text::has_part(name, "6to4"@)
}

/// Whether `name` is that of a virtual adapter, in upper or lower case.
pub open spec fn virtual_adapter(name: Seq<char>) -> bool {
    names_virtual(text::lowercase(name))
}

/// Whether `name` is that of a virtual adapter, in upper or lower case.
pub fn is_virtual_adapter(name: &str) -> (r: bool)
    ensures
        r == virtual_adapter(name@),
{
    let name = text::lowercase_chars(name);
    let name = name.as_slice();
    text::contains(name, "virtual") || text::contains(name, "vethernet") || text::contains(
        name,
        "vmware",
    ) || text::contains(name, "virtualbox") || text::contains(name, "vbox") || text::contains(
        name,
        "hyper-v",
    ) || text::contains(name, "wsl") || text::contains(name, "docker") || text::contains(
        name,
        "tailscale",
    ) || text::contains(name, "wireguard") || text::contains(name, "vpn") || text::contains(
        name,
        "tunnel",
    ) || text::contains(name, "loopback") || text::contains(name, "bluetooth") || text::contains(
        name,
        "bt",
    ) || text::contains(name, "pseudo") || text::contains(name, "tun") || text::contains(
        name,
        "tap",
    ) || text::contains(name, "ppp") || text::contains(name, "isatap") || text::contains(
        name,
        "teredo",
    ) || text::contains(name, "6to4")
}

} // verus!
