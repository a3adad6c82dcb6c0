//! The transport channel model.
//!
//! The underlying transport offers two delivery classes: reliable-ordered,
//! with a bounded resend interval, and unreliable best-effort. A fixed set
//! of named logical channels is multiplexed over them, each with its own
//! byte budget. This module declares those channels and their static
//! configuration, and models the reliable class's queue: what was sent is
//! drained in order, nothing else.

use vstd::prelude::*;

verus! {

/// Marks an entity that must never be sent to clients (entities generated
/// locally by other entities, such as chunks).
#[derive(Debug, Clone, Copy, PartialEq, Eq, Structural)]
pub struct NoSendEntity;

/// Peers of one session must agree on this to connect.
pub const PROTOCOL_ID: u64 = 7;

const KB: u64 = 1024;

const MB: u64 = KB * KB;

/// The delivery class of one logical channel.
#[derive(Debug, Clone, Copy, PartialEq, Eq, Structural)]
pub enum SendType {
    /// Every accepted message arrives, in order, while the connection
    /// lives; unacknowledged messages are resent at this interval.
    ReliableOrdered { resend_time_millis: u64 },
    /// Neither order nor delivery is guaranteed; drops silently under
    /// congestion.
    Unreliable,
}

/// Static configuration of one logical channel.
#[derive(Debug, Clone, Copy, PartialEq, Eq, Structural)]
pub struct ChannelConfig {
    /// The channel's identifier on the wire.
    pub channel_id: u8,
    /// The channel's byte budget.
    pub max_memory_usage_bytes: u64,
    /// The channel's delivery class.
    pub send_type: SendType,
}

/// Network channels that clients send to the server on.
#[derive(Debug, Clone, Copy, PartialEq, Eq, Structural)]
pub enum NettyChannelClient {
    /// Reliably sent; guaranteed to reach the server.
    Reliable,
    /// Unreliably sent; may never arrive.
    Unreliable,
    /// Inventory traffic.
    Inventory,
}

/// Network channels that the server sends to clients on.
#[derive(Debug, Clone, Copy, PartialEq, Eq, Structural)]
pub enum NettyChannelServer {
    /// Reliably sent; guaranteed to reach the client.
    Reliable,
    /// Unreliably sent; may never arrive.
    Unreliable,
    /// Laser cannon system traffic.
    LaserCannonSystem,
    /// Asteroid traffic.
    Asteroid,
    /// Level-of-detail updates.
    DeltaLod,
    /// Inventory traffic.
    Inventory,
    /// Generic component replication traffic.
    SystemReplication,
    /// Registry synchronization.
    Registry,
}

/// The wire identifier of each client channel.
pub open spec fn spec_client_channel_id(c: NettyChannelClient) -> u8 {
    match c {
        NettyChannelClient::Reliable => 0,
        NettyChannelClient::Unreliable => 1,
        NettyChannelClient::Inventory => 2,
    }
}

/// The wire identifier of each server channel.
pub open spec fn spec_server_channel_id(c: NettyChannelServer) -> u8 {
    match c {
        NettyChannelServer::Reliable => 0,
        NettyChannelServer::Unreliable => 1,
        NettyChannelServer::LaserCannonSystem => 2,
        NettyChannelServer::Asteroid => 3,
        NettyChannelServer::DeltaLod => 4,
        NettyChannelServer::Inventory => 5,
        NettyChannelServer::SystemReplication => 6,
        NettyChannelServer::Registry => 7,
    }
}

/// The reliable-ordered class with the default resend interval.
pub open spec fn spec_reliable() -> SendType {
    SendType::ReliableOrdered { resend_time_millis: 200 }
}

/// The full static configuration of the client channels.
pub open spec fn spec_client_channels() -> Seq<ChannelConfig> {
    seq![
        (ChannelConfig { channel_id: 0, max_memory_usage_bytes: (5 * 1024 * 1024) as u64, send_type: spec_reliable() }),
        (ChannelConfig { channel_id: 1, max_memory_usage_bytes: (5 * 1024 * 1024) as u64, send_type: SendType::Unreliable }),
        (ChannelConfig { channel_id: 2, max_memory_usage_bytes: (5 * 1024 * 1024) as u64, send_type: spec_reliable() }),
    ]
}

/// The full static configuration of the server channels.
pub open spec fn spec_server_channels() -> Seq<ChannelConfig> {
    seq![
        (ChannelConfig { channel_id: 0, max_memory_usage_bytes: (5 * 1024 * 1024) as u64, send_type: spec_reliable() }),
        (ChannelConfig { channel_id: 1, max_memory_usage_bytes: (5 * 1024 * 1024) as u64, send_type: SendType::Unreliable }),
        (ChannelConfig { channel_id: 2, max_memory_usage_bytes: (5 * 1024 * 1024) as u64, send_type: SendType::Unreliable }),
        (ChannelConfig { channel_id: 3, max_memory_usage_bytes: (5 * 1024 * 1024) as u64, send_type: spec_reliable() }),
        (ChannelConfig { channel_id: 5, max_memory_usage_bytes: (5 * 1024 * 1024) as u64, send_type: spec_reliable() }),
        (ChannelConfig { channel_id: 4, max_memory_usage_bytes: (5 * 1024 * 1024) as u64, send_type: spec_reliable() }),
        (ChannelConfig { channel_id: 6, max_memory_usage_bytes: (5 * 1024 * 1024) as u64, send_type: spec_reliable() }),
        (ChannelConfig { channel_id: 7, max_memory_usage_bytes: (5 * 1024 * 1024) as u64, send_type: spec_reliable() }),
    ]
}

impl NettyChannelClient {
    /// The channel's identifier on the wire.
    pub fn id(&self) -> (r: u8)
        ensures
            r == spec_client_channel_id(*self),
    {
        match self {
            NettyChannelClient::Reliable => 0,
            NettyChannelClient::Unreliable => 1,
            NettyChannelClient::Inventory => 2,
        }
    }

    /// Assembles and returns the configuration of all the client channels.
    pub fn channels_config() -> (r: Vec<ChannelConfig>)
        ensures
            r@ == spec_client_channels(),
    {
        let mut r: Vec<ChannelConfig> = Vec::new();
        r.push(ChannelConfig {
            channel_id: 0,
            max_memory_usage_bytes: 5 * 1024 * 1024,
            send_type: SendType::ReliableOrdered { resend_time_millis: 200 },
        });
        r.push(ChannelConfig {
            channel_id: 1,
            max_memory_usage_bytes: 5 * 1024 * 1024,
            send_type: SendType::Unreliable,
        });
        r.push(ChannelConfig {
            channel_id: 2,
            max_memory_usage_bytes: 5 * 1024 * 1024,
            send_type: SendType::ReliableOrdered { resend_time_millis: 200 },
        });
        assert(r@ =~= spec_client_channels());
        r
    }
}

impl NettyChannelServer {
    /// The channel's identifier on the wire.
    pub fn id(&self) -> (r: u8)
        ensures
            r == spec_server_channel_id(*self),
    {
        match self {
            NettyChannelServer::Reliable => 0,
            NettyChannelServer::Unreliable => 1,
            NettyChannelServer::LaserCannonSystem => 2,
            NettyChannelServer::Asteroid => 3,
            NettyChannelServer::DeltaLod => 4,
            NettyChannelServer::Inventory => 5,
            NettyChannelServer::SystemReplication => 6,
            NettyChannelServer::Registry => 7,
        }
    }

    /// Assembles and returns the configuration of all the server channels.
    pub fn channels_config() -> (r: Vec<ChannelConfig>)
        ensures
            r@ == spec_server_channels(),
    {
        let mut r: Vec<ChannelConfig> = Vec::new();
        r.push(ChannelConfig {
            channel_id: 0,
            max_memory_usage_bytes: 5 * 1024 * 1024,
            send_type: SendType::ReliableOrdered { resend_time_millis: 200 },
        });
        r.push(ChannelConfig {
            channel_id: 1,
            max_memory_usage_bytes: 5 * 1024 * 1024,
            send_type: SendType::Unreliable,
        });
        r.push(ChannelConfig {
            channel_id: 2,
            max_memory_usage_bytes: 5 * 1024 * 1024,
            send_type: SendType::Unreliable,
        });
        r.push(ChannelConfig {
            channel_id: 3,
            max_memory_usage_bytes: 5 * 1024 * 1024,
            send_type: SendType::ReliableOrdered { resend_time_millis: 200 },
        });
        r.push(ChannelConfig {
            channel_id: 5,
            max_memory_usage_bytes: 5 * 1024 * 1024,
            send_type: SendType::ReliableOrdered { resend_time_millis: 200 },
        });
        r.push(ChannelConfig {
            channel_id: 4,
            max_memory_usage_bytes: 5 * 1024 * 1024,
            send_type: SendType::ReliableOrdered { resend_time_millis: 200 },
        });
        r.push(ChannelConfig {
            channel_id: 6,
            max_memory_usage_bytes: 5 * 1024 * 1024,
            send_type: SendType::ReliableOrdered { resend_time_millis: 200 },
        });
        r.push(ChannelConfig {
            channel_id: 7,
            max_memory_usage_bytes: 5 * 1024 * 1024,
            send_type: SendType::ReliableOrdered { resend_time_millis: 200 },
        });
        assert(r@ =~= spec_server_channels());
        r
    }
}

/// No two client channels share a wire identifier.
pub proof fn lemma_client_channel_ids_distinct(a: NettyChannelClient, b: NettyChannelClient)
    ensures
        spec_client_channel_id(a) == spec_client_channel_id(b) ==> a == b,
{
}

/// No two server channels share a wire identifier.
pub proof fn lemma_server_channel_ids_distinct(a: NettyChannelServer, b: NettyChannelServer)
    ensures
        spec_server_channel_id(a) == spec_server_channel_id(b) ==> a == b,
{
}

/// Assembles the configuration of a connection: the per-tick byte budget
/// and both channel tables.
pub struct ConnectionSettings {
    /// How many bytes one tick may put on the wire.
    pub available_bytes_per_tick: u64,
    /// The client channel table.
    pub client_channels_config: Vec<ChannelConfig>,
    /// The server channel table.
    pub server_channels_config: Vec<ChannelConfig>,
}

/// Assembles the configuration for a connection.
pub fn connection_config() -> (r: ConnectionSettings)
    ensures
        r.available_bytes_per_tick == 1024 * 1024,
        r.client_channels_config@ == spec_client_channels(),
        r.server_channels_config@ == spec_server_channels(),
{
    ConnectionSettings {
        available_bytes_per_tick: MB,
        client_channels_config: NettyChannelClient::channels_config(),
        server_channels_config: NettyChannelServer::channels_config(),
    }
}

/// In-process model of one reliable-ordered channel: messages drain in the
/// order they were sent, none lost, none invented.
#[derive(Debug)]
pub struct ReliableChannel {
    queue: Vec<Vec<u8>>,
}

impl View for ReliableChannel {
    type V = Seq<Seq<u8>>;

    closed spec fn view(&self) -> Seq<Seq<u8>> {
        self.queue@.map_values(|frame: Vec<u8>| frame@)
    }
}

impl ReliableChannel {
    /// An empty channel.
    pub fn new() -> (r: ReliableChannel)
        ensures
            r@.len() == 0,
    {
        let r = ReliableChannel { queue: Vec::new() };
        proof {
            assert(r@ =~= Seq::<Seq<u8>>::empty());
        }
        r
    }

    /// How many frames sit in the channel.
    pub fn len(&self) -> (r: usize)
        ensures
            r == self@.len(),
    {
        self.queue.len()
    }

    /// Accepts one frame; it takes its place behind everything already sent.
    pub fn send(&mut self, frame: Vec<u8>)
        ensures
            final(self)@ == old(self)@.push(frame@),
    {
        self.queue.push(frame);
        proof {
            assert(self@ =~= old(self)@.push(frame@));
        }
    }

    /// Takes the oldest frame out, in send order; `None` when drained.
    pub fn receive(&mut self) -> (r: Option<Vec<u8>>)
        ensures
            old(self)@.len() == 0 ==> r is None && final(self)@ == old(self)@,
            old(self)@.len() > 0 ==> (r matches Some(frame) && frame@ == old(self)@[0]
                && final(self)@ == old(self)@.skip(1)),
    {
        if self.queue.len() == 0 {
            proof {
                assert(self@ =~= old(self)@);
            }
            None
        } else {
            let frame = self.queue.remove(0);
            proof {
                assert(self@ =~= old(self)@.skip(1));
            }
            Some(frame)
        }
    }
}

} // verus!
