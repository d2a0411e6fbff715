//! Which endpoints a peer uses: both peers of a local match run on one
//! machine and tell each other apart by their port.

use vstd::prelude::*;

verus! {

/// The loopback address 127.0.0.1, most significant byte first.
pub const LOOPBACK: u32 = 0x7F00_0001;

/// The port of the peer that plays as client 0.
pub const FIRST_PORT: u16 = 4001;

/// The port of every other peer.
pub const SECOND_PORT: u16 = 4002;

/// An IPv4 endpoint as plain numbers.
#[derive(Clone, Copy, Debug, PartialEq, Eq, Hash, Structural)]
pub struct Endpoint {
    /// The IPv4 address, most significant byte first.
    pub address: u32,
    pub port: u16,
}

/// What a peer needs to know of the network when it starts.
#[derive(Clone, Copy, Debug, PartialEq, Eq, Structural)]
pub struct StartupNetworkConfig {
    /// Which of the two peers this process is.
    pub client: usize,
    /// Where this peer listens.
    pub bind: Endpoint,
    /// Where the other peer listens.
    pub remote: Endpoint,
}

/// The endpoints of the peer that plays as client `player_num`: client 0
/// listens on the first port and reaches its peer on the second; every
/// other client does the reverse.
pub fn startup_network_config(player_num: usize) -> (r: StartupNetworkConfig)
    ensures
        r.client == player_num,
        r.bind.address == LOOPBACK,
        r.remote.address == LOOPBACK,
        r.bind.port == if player_num == 0 {
            FIRST_PORT
        } else {
            SECOND_PORT
        },
        r.remote.port == if player_num == 0 {
            SECOND_PORT
        } else {
            FIRST_PORT
        },
{
    let bind_port: u16 = if player_num == 0 {
        FIRST_PORT
    } else {
        SECOND_PORT
    };
    let remote_port: u16 = if player_num == 0 {
        SECOND_PORT
    } else {
        FIRST_PORT
    };
    StartupNetworkConfig {
        client: player_num,
        bind: Endpoint { address: LOOPBACK, port: bind_port },
        remote: Endpoint { address: LOOPBACK, port: remote_port },
    }
}

} // verus!
