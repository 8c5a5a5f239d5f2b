//! The configuration that the relay is started with: where it listens for
//! datagrams and where it listens for subscribers.

use vstd::prelude::*;

verus! {

/// Where one listener binds: an IPv4 address, as its four octets, and a port.
#[derive(Clone, Copy, Debug, PartialEq, Eq)]
pub struct Endpoint {
    pub address: [u8; 4],
    pub port: u16,
}

/// The two endpoints of the relay. Datagrams come in at `inbound`; subscribers
/// connect to `outbound`.
#[derive(Clone, Copy, Debug, PartialEq, Eq)]
pub struct Configuration {
    pub inbound: Endpoint,
    pub outbound: Endpoint,
}

/// The ports that a listener can be bound to are 1 to 65535.
pub open spec fn port_in_range(port: u16) -> bool {
    port >= 1
}

impl Configuration {
    /// Both ports can be bound to.
    pub open spec fn valid(self) -> bool {
        port_in_range(self.inbound.port) && port_in_range(self.outbound.port)
    }

    /// The configuration made of the four values, where all four are there and both
    /// ports are in range. There is no default for any of them.
    pub open spec fn assembled(
        inbound_address: Option<[u8; 4]>,
        inbound_port: Option<u16>,
        outbound_address: Option<[u8; 4]>,
        outbound_port: Option<u16>,
    ) -> Option<Configuration> {
        match (inbound_address, inbound_port, outbound_address, outbound_port) {
            (Some(inbound_address), Some(inbound_port), Some(outbound_address), Some(outbound_port)) => {
                if port_in_range(inbound_port) && port_in_range(outbound_port) {
                    Some(
                        Configuration {
                            inbound: Endpoint { address: inbound_address, port: inbound_port },
                            outbound: Endpoint { address: outbound_address, port: outbound_port },
                        },
                    )
                } else {
                    None
                }
            },
            _ => None,
        }
    }

    /// Puts a configuration together. Fails if one of the four values is absent or
    /// a port is 0: the relay then starts neither listener.
    pub fn assemble(
        inbound_address: Option<[u8; 4]>,
        inbound_port: Option<u16>,
        outbound_address: Option<[u8; 4]>,
        outbound_port: Option<u16>,
    ) -> (configuration: Option<Configuration>)
        ensures
            configuration == Self::assembled(
                inbound_address,
                inbound_port,
                outbound_address,
                outbound_port,
            ),
            configuration matches Some(made) ==> made.valid(),
    {
        match (inbound_address, inbound_port, outbound_address, outbound_port) {
            (Some(inbound_address), Some(inbound_port), Some(outbound_address), Some(outbound_port)) => {
                if inbound_port >= 1 && outbound_port >= 1 {
                    Some(
                        Configuration {
                            inbound: Endpoint { address: inbound_address, port: inbound_port },
                            outbound: Endpoint { address: outbound_address, port: outbound_port },
                        },
                    )
                } else {
                    None
                }
            },
            _ => None,
        }
    }
}

} // verus!
