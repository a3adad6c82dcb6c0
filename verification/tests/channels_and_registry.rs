//! Channel tables, the reliable queue model, and kind registration.

use cosmos_core::authority::{AuthorityRule, ComponentSyncPolicy};
use cosmos_core::channel::{
    connection_config, NettyChannelClient, NettyChannelServer, ReliableChannel, SendType,
    PROTOCOL_ID,
};
use cosmos_core::registry::{register, ComponentRegistry};

#[test]
fn channel_ids() {
    assert_eq!(NettyChannelClient::Reliable.id(), 0);
    assert_eq!(NettyChannelClient::Unreliable.id(), 1);
    assert_eq!(NettyChannelClient::Inventory.id(), 2);
    assert_eq!(NettyChannelServer::Reliable.id(), 0);
    assert_eq!(NettyChannelServer::Unreliable.id(), 1);
    assert_eq!(NettyChannelServer::LaserCannonSystem.id(), 2);
    assert_eq!(NettyChannelServer::Asteroid.id(), 3);
    assert_eq!(NettyChannelServer::DeltaLod.id(), 4);
    assert_eq!(NettyChannelServer::Inventory.id(), 5);
    assert_eq!(NettyChannelServer::SystemReplication.id(), 6);
    assert_eq!(NettyChannelServer::Registry.id(), 7);
}

#[test]
fn channel_tables() {
    let client = NettyChannelClient::channels_config();
    assert_eq!(client.len(), 3);
    for c in &client {
        assert_eq!(c.max_memory_usage_bytes, 5 * 1024 * 1024);
    }
    assert_eq!(client[1].send_type, SendType::Unreliable);
    assert_eq!(client[0].send_type, SendType::ReliableOrdered { resend_time_millis: 200 });

    let server = NettyChannelServer::channels_config();
    assert_eq!(server.len(), 8);
    // Every channel id occurs exactly once.
    for id in 0..8u8 {
        assert_eq!(server.iter().filter(|c| c.channel_id == id).count(), 1);
    }
    // The replication channel is reliable-ordered: the protocol's generic
    // path never rides an unreliable channel.
    let replication = server
        .iter()
        .find(|c| c.channel_id == NettyChannelServer::SystemReplication.id())
        .unwrap();
    assert_eq!(replication.send_type, SendType::ReliableOrdered { resend_time_millis: 200 });

    let conn = connection_config();
    assert_eq!(conn.available_bytes_per_tick, 1024 * 1024);
    assert_eq!(conn.client_channels_config.len(), 3);
    assert_eq!(conn.server_channels_config.len(), 8);
    assert_eq!(PROTOCOL_ID, 7);
}

#[test]
fn reliable_channel_preserves_order_and_loses_nothing() {
    let mut ch = ReliableChannel::new();
    ch.send(vec![1]);
    ch.send(vec![2, 2]);
    ch.send(vec![3]);
    assert_eq!(ch.len(), 3);
    assert_eq!(ch.receive(), Some(vec![1]));
    assert_eq!(ch.receive(), Some(vec![2, 2]));
    assert_eq!(ch.receive(), Some(vec![3]));
    assert_eq!(ch.receive(), None);
}

#[test]
fn registration_assigns_kinds_in_order() {
    let mut r = ComponentRegistry::new();
    let a = register(&mut r, b"cosmos:shield".to_vec(), ComponentSyncPolicy::AuthoritativeSide);
    let b = register(
        &mut r,
        b"cosmos:looking".to_vec(),
        ComponentSyncPolicy::Shared { rule: AuthorityRule::Unrestricted },
    );
    assert_eq!(a, 0);
    assert_eq!(b, 1);
    assert_eq!(r.kind_from_name(&b"cosmos:shield".to_vec()), Some(0));
    assert_eq!(r.kind_from_name(&b"cosmos:looking".to_vec()), Some(1));
    assert_eq!(r.kind_from_name(&b"cosmos:absent".to_vec()), None);
    assert_eq!(r.policy_for(a), Some(ComponentSyncPolicy::AuthoritativeSide));
    assert_eq!(r.policy_for(2), None);
    assert_eq!(r.len(), 2);
}

#[test]
fn identical_registration_order_yields_identical_kinds() {
    // Both peers run the same deterministic registration sequence.
    let names: [&[u8]; 3] = [b"cosmos:position", b"cosmos:shield", b"cosmos:pilot"];
    let mut peer_a = ComponentRegistry::new();
    let mut peer_b = ComponentRegistry::new();
    for n in names {
        register(&mut peer_a, n.to_vec(), ComponentSyncPolicy::AuthoritativeSide);
        register(&mut peer_b, n.to_vec(), ComponentSyncPolicy::AuthoritativeSide);
    }
    for n in names {
        assert_eq!(peer_a.kind_from_name(&n.to_vec()), peer_b.kind_from_name(&n.to_vec()));
    }
}
