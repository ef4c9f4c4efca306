use vstd::prelude::*;

verus! {

/// The broker endpoint a session talks to.
pub struct Connection {
    pub ip_address: String,
    pub port: u16,
}

/// A heartbeat advertisement: milliseconds between frames the sender is able
/// to emit, and milliseconds between frames it would like to receive.
#[derive(Clone, Copy)]
pub struct HeartBeat(pub u32, pub u32);

/// Borrowed login and passcode, as accepted by the session builder.
#[derive(Clone, Copy)]
pub struct Credentials<'a>(pub &'a str, pub &'a str);

/// Owned login and passcode, kept inside the session configuration.
#[derive(Clone)]
pub struct OwnedCredentials {
    pub login: String,
    pub passcode: String,
}

impl OwnedCredentials {
    pub fn from<'a>(credentials: Credentials<'a>) -> (r: OwnedCredentials)
        ensures
            r.login@ == credentials.0@,
            r.passcode@ == credentials.1@,
    {
        OwnedCredentials {
            login: String::from_str(credentials.0),
            passcode: String::from_str(credentials.1),
        }
    }
}

/// The agreed transmit interval: zero when either side opts out, otherwise
/// the larger of what the client can send and what the server wants.
pub open spec fn spec_select_tx(client_tx_ms: u32, server_rx_ms: u32) -> u32 {
    if client_tx_ms == 0 || server_rx_ms == 0 {
        0u32
    } else if client_tx_ms >= server_rx_ms {
        client_tx_ms
    } else {
        server_rx_ms
    }
}

/// The agreed receive interval: zero when either side opts out, otherwise
/// the larger of what the client wants and what the server can send.
pub open spec fn spec_select_rx(client_rx_ms: u32, server_tx_ms: u32) -> u32 {
    if client_rx_ms == 0 || server_tx_ms == 0 {
        0u32
    } else if client_rx_ms >= server_tx_ms {
        client_rx_ms
    } else {
        server_tx_ms
    }
}

impl Connection {
    /// Negotiate heartbeat intervals from the client's and server's
    /// advertisements, per the STOMP 1.2 rules.
    pub fn select_heartbeat(
        client_tx_ms: u32,
        client_rx_ms: u32,
        server_tx_ms: u32,
        server_rx_ms: u32,
    ) -> (r: (u32, u32))
        ensures
            r.0 == spec_select_tx(client_tx_ms, server_rx_ms),
            r.1 == spec_select_rx(client_rx_ms, server_tx_ms),
    {
        let heartbeat_tx_ms: u32;
        let heartbeat_rx_ms: u32;
        if client_tx_ms == 0 || server_rx_ms == 0 {
            heartbeat_tx_ms = 0;
        } else if client_tx_ms >= server_rx_ms {
            heartbeat_tx_ms = client_tx_ms;
        } else {
            heartbeat_tx_ms = server_rx_ms;
        }
        if client_rx_ms == 0 || server_tx_ms == 0 {
            heartbeat_rx_ms = 0;
        } else if client_rx_ms >= server_tx_ms {
            heartbeat_rx_ms = client_rx_ms;
        } else {
            heartbeat_rx_ms = server_tx_ms;
        }
        (heartbeat_tx_ms, heartbeat_rx_ms)
    }
}

} // verus!
