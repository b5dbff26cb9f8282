//! The port that the server listens on.

use vstd::prelude::*;

verus! {

/// What the server knows of its listeners.
pub struct ListenerConfig {
    pub tcp_port: u16,
}

impl ListenerConfig {
    /// No port yet.
    pub fn new() -> (r: ListenerConfig)
        ensures
            r.tcp_port == 0,
    {
        ListenerConfig { tcp_port: 0 }
    }
}

/// Sets the port.
pub fn set_tcp_port_config(c: &mut ListenerConfig, port: u16)
    ensures
        *final(c) == (ListenerConfig { tcp_port: port }),
{
    c.tcp_port = port;
}

/// The port.
pub fn tcp_port_config(c: &ListenerConfig) -> (r: u16)
    ensures
        r == c.tcp_port,
{
    c.tcp_port
}

} // verus!
