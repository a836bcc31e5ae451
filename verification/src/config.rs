//! The topology: what a configuration asks for, and the pools and listeners
//! that the proxy runs for it.

use crate::addr::SocketAddress;
use crate::registry::{all_configured, configured_all, is_first_bad_line, texts, Registry};
use crate::relay::Route;
use vstd::prelude::*;

verus! {

/// What is configured. Each entry of a list of servers is one line:
/// a slot's TCP address, white space, and its UDP address.
#[derive(Clone, Debug, PartialEq, Eq)]
pub enum Config {
    /// Single tier: clients in front of logic servers.
    Fl {
        client_tcp_listening_addr: SocketAddress,
        logic_heartbeat_udp_addr: SocketAddress,
        logic_servers: Vec<String>,
    },
    /// Two tiers chained: logic servers and data servers, each side
    /// relayed to the other.
    Ld {
        logic_servers_tcp_listening_addr: SocketAddress,
        logic_servers_heartbeat_udp_addr: SocketAddress,
        logic_servers: Vec<String>,
        data_servers_tcp_listening_addr: SocketAddress,
        data_servers_hearbeat_udp_addr: SocketAddress,
        data_servers: Vec<String>,
    },
}

/// The role of the servers of a pool.
#[derive(Clone, Copy, Debug, PartialEq, Eq, Structural)]
pub enum Role {
    Logic,
    Data,
}

/// One pool of servers of a role: its registry, and the address on which
/// its heartbeats are listened for.
pub struct Pool {
    pub role: Role,
    pub heartbeat_udp_addr: SocketAddress,
    pub servers: Registry,
}

/// One listener: the address on which connections are accepted, the route
/// they take and the pool they are relayed to, by its place in the topology.
#[derive(Clone, Copy, Debug, PartialEq, Eq, Structural)]
pub struct Listener {
    pub tcp_listening_addr: SocketAddress,
    pub route: Route,
    pub upstream: usize,
}

/// The pools and listeners that the proxy runs.
pub struct Topology {
    pub pools: Vec<Pool>,
    pub listeners: Vec<Listener>,
}

/// A line in the list of servers of a role that names no slot. Such a
/// configuration is refused as a whole.
#[derive(Clone, Copy, Debug, PartialEq, Eq, Structural)]
pub struct ConfigError {
    pub role: Role,
    pub line: usize,
}

/// Whether every entry of every list of servers names a slot.
pub open spec fn names_slots(config: Config) -> bool {
    match config {
        Config::Fl { logic_servers, .. } => all_configured(texts(logic_servers@)),
        Config::Ld { logic_servers, data_servers, .. } => all_configured(texts(logic_servers@))
            && all_configured(texts(data_servers@)),
    }
}

/// Whether `e` is the entry that `config` is refused for: the first one that
/// names no slot, the logic servers taken before the data servers.
pub open spec fn refused_for(config: Config, e: ConfigError) -> bool {
    match config {
        Config::Fl { logic_servers, .. } => e.role == Role::Logic && is_first_bad_line(
            texts(logic_servers@),
            e.line as int,
        ),
        Config::Ld { logic_servers, data_servers, .. } => match e.role {
            Role::Logic => is_first_bad_line(texts(logic_servers@), e.line as int),
            Role::Data => all_configured(texts(logic_servers@)) && is_first_bad_line(
                texts(data_servers@),
                e.line as int,
            ),
        },
    }
}

/// Whether `pool` is a pool of this role, listened for on this address, with
/// one fresh slot for each of the lines.
pub open spec fn is_pool(
    pool: Pool,
    role: Role,
    heartbeat_udp_addr: SocketAddress,
    lines: Seq<String>,
) -> bool {
    &&& pool.role == role
    &&& pool.heartbeat_udp_addr == heartbeat_udp_addr
    &&& pool.servers@ == configured_all(texts(lines))
    &&& pool.servers@.len() == lines.len()
    &&& pool.servers.wf()
}

impl Topology {
    /// Every listener relays to a pool that there is.
    pub open spec fn wf(&self) -> bool {
        forall|i: int|
            0 <= i < self.listeners@.len() ==> (#[trigger] self.listeners@[i]).upstream
                < self.pools@.len()
    }

    /// Whether this is the topology that `config` asks for. A single tier
    /// has the pool of logic servers and one listener that relays clients to
    /// it. Two tiers have the pool of logic servers and that of data
    /// servers, in this order, and two listeners crossed over: what comes in
    /// on the logic side is relayed to a data server, and what comes in on
    /// the data side to a logic server.
    pub open spec fn matches(&self, config: Config) -> bool {
        match config {
            Config::Fl { client_tcp_listening_addr, logic_heartbeat_udp_addr, logic_servers } => {
                &&& self.pools@.len() == 1
                &&& is_pool(self.pools@[0], Role::Logic, logic_heartbeat_udp_addr, logic_servers@)
                &&& self.listeners@ == seq![
                    Listener {
                        tcp_listening_addr: client_tcp_listening_addr,
                        route: Route::ClientToLogic,
                        upstream: 0,
                    },
                ]
            },
            Config::Ld {
                logic_servers_tcp_listening_addr,
                logic_servers_heartbeat_udp_addr,
                logic_servers,
                data_servers_tcp_listening_addr,
                data_servers_hearbeat_udp_addr,
                data_servers,
            } => {
                &&& self.pools@.len() == 2
                &&& is_pool(
                    self.pools@[0],
                    Role::Logic,
                    logic_servers_heartbeat_udp_addr,
                    logic_servers@,
                )
                &&& is_pool(
                    self.pools@[1],
                    Role::Data,
                    data_servers_hearbeat_udp_addr,
                    data_servers@,
                )
                &&& self.listeners@ == seq![
                    Listener {
                        tcp_listening_addr: logic_servers_tcp_listening_addr,
                        route: Route::LogicToData,
                        upstream: 1,
                    },
                    Listener {
                        tcp_listening_addr: data_servers_tcp_listening_addr,
                        route: Route::DataToLogic,
                        upstream: 0,
                    },
                ]
            },
        }
    }

    /// The topology that `config` asks for. A configuration with an entry
    /// that names no slot is refused, and the entry is reported.
    pub fn from_config(config: &Config) -> (r: Result<Topology, ConfigError>)
        ensures
            match r {
                Ok(t) => names_slots(*config) && t.matches(*config) && t.wf(),
                Err(e) => refused_for(*config, e),
            },
    {
        let mut pools: Vec<Pool> = Vec::new();
        let mut listeners: Vec<Listener> = Vec::new();
        match config {
            Config::Fl { client_tcp_listening_addr, logic_heartbeat_udp_addr, logic_servers } => {
                let logic = match Registry::parse_addr_pairs(logic_servers) {
                    Ok(registry) => registry,
                    Err(e) => {
                        return Err(ConfigError { role: Role::Logic, line: e.line });
                    },
                };
                pools.push(
                    Pool {
                        role: Role::Logic,
                        heartbeat_udp_addr: *logic_heartbeat_udp_addr,
                        servers: logic,
                    },
                );
                listeners.push(
                    Listener {
                        tcp_listening_addr: *client_tcp_listening_addr,
                        route: Route::ClientToLogic,
                        upstream: 0,
                    },
                );
                assert(listeners@ =~= seq![
                    Listener {
                        tcp_listening_addr: *client_tcp_listening_addr,
                        route: Route::ClientToLogic,
                        upstream: 0,
                    },
                ]);
            },
            Config::Ld {
                logic_servers_tcp_listening_addr,
                logic_servers_heartbeat_udp_addr,
                logic_servers,
                data_servers_tcp_listening_addr,
                data_servers_hearbeat_udp_addr,
                data_servers,
            } => {
                let logic = match Registry::parse_addr_pairs(logic_servers) {
                    Ok(registry) => registry,
                    Err(e) => {
                        return Err(ConfigError { role: Role::Logic, line: e.line });
                    },
                };
                let data = match Registry::parse_addr_pairs(data_servers) {
                    Ok(registry) => registry,
                    Err(e) => {
                        return Err(ConfigError { role: Role::Data, line: e.line });
                    },
                };
                pools.push(
                    Pool {
                        role: Role::Logic,
                        heartbeat_udp_addr: *logic_servers_heartbeat_udp_addr,
                        servers: logic,
                    },
                );
                pools.push(
                    Pool {
                        role: Role::Data,
                        heartbeat_udp_addr: *data_servers_hearbeat_udp_addr,
                        servers: data,
                    },
                );
                listeners.push(
                    Listener {
                        tcp_listening_addr: *logic_servers_tcp_listening_addr,
                        route: Route::LogicToData,
                        upstream: 1,
                    },
                );
                listeners.push(
                    Listener {
                        tcp_listening_addr: *data_servers_tcp_listening_addr,
                        route: Route::DataToLogic,
                        upstream: 0,
                    },
                );
                assert(listeners@ =~= seq![
                    Listener {
                        tcp_listening_addr: *logic_servers_tcp_listening_addr,
                        route: Route::LogicToData,
                        upstream: 1,
                    },
                    Listener {
                        tcp_listening_addr: *data_servers_tcp_listening_addr,
                        route: Route::DataToLogic,
                        upstream: 0,
                    },
                ]);
            },
        }
        Ok(Topology { pools, listeners })
    }
}

} // verus!
