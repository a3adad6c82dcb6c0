//! Server-to-client replication of one entity's component, end to end:
//! first sighting, identity row, apply, and a later removal.

use cosmos_core::authority::{AuthorityRule, ComponentSyncPolicy};
use cosmos_core::channel::{NettyChannelServer, ReliableChannel};
use cosmos_core::identity::EntityIdentityTable;
use cosmos_core::registry::{register, ComponentRegistry};
use cosmos_core::store::EntityStore;
use cosmos_core::sync::{client_apply_message, send_changed_components, sync_removed_components, ApplyOutcome};
use cosmos_core::wire::{decode_message, encode_message};

#[test]
fn position_replicates_then_is_removed() {
    // Both builds register the same names in the same order, so both
    // derive the same kind integers.
    let mut server_registry = ComponentRegistry::new();
    let mut client_registry = ComponentRegistry::new();
    let mut position = 0u16;
    for registry in [&mut server_registry, &mut client_registry] {
        position = register(
            registry,
            b"cosmos:position".to_vec(),
            ComponentSyncPolicy::AuthoritativeSide,
        );
    }

    // Server world: entity E with origin handle 7.
    let mut server = EntityStore::new();
    let mut e = 0u64;
    for _ in 0..7 {
        e = server.create_entity();
    }
    assert_eq!(e, 7);

    // The payload bytes come from the component's own serializer.
    let payload = bincode::serialize(&(1.0f32, 2.0f32, 3.0f32)).unwrap();
    server.upsert_component(e, position, payload.clone());

    // Sender tick: one upsert for the changed component, onto the
    // replication channel.
    let (msgs, pairs) = send_changed_components(&mut server, &server_registry, true);
    assert_eq!(pairs, vec![(7u64, position)]);
    // Replication rides the reliable component-replication channel.
    assert_eq!(NettyChannelServer::SystemReplication.id(), 6);
    let mut channel = ReliableChannel::new();
    for m in &msgs {
        channel.send(encode_message(m));
    }

    // Client world: no identity row for 7 yet.
    let mut client = EntityStore::new();
    let mut table = EntityIdentityTable::new();
    assert_eq!(table.local_of(7), None);

    // Receive tick: the first sighting creates local stub L, inserts the
    // row 7 <-> L, and applies the position.
    while let Some(frame) = channel.receive() {
        let msg = decode_message(&frame).expect("well-formed frame");
        let r = client_apply_message(&mut client, &mut table, &client_registry, &msg);
        assert_eq!(r, ApplyOutcome::Applied);
    }
    let l = table.local_of(7).expect("identity row inserted");
    assert!(client.has(l));
    assert_eq!(client.get_component(l, position), Some(&payload));
    let restored: (f32, f32, f32) =
        bincode::deserialize(client.get_component(l, position).unwrap()).unwrap();
    assert_eq!(restored, (1.0, 2.0, 3.0));

    // The server later detaches the component; the removal replicates
    // without despawning L.
    server.remove_component(e, position);
    let removals = sync_removed_components(&mut server, &server_registry, true);
    assert_eq!(removals.len(), 1);
    for m in &removals {
        channel.send(encode_message(m));
    }
    while let Some(frame) = channel.receive() {
        let msg = decode_message(&frame).expect("well-formed frame");
        let r = client_apply_message(&mut client, &mut table, &client_registry, &msg);
        assert_eq!(r, ApplyOutcome::Applied);
    }
    assert_eq!(client.get_component(l, position), None);
    assert!(client.has(l));
    assert_eq!(table.local_of(7), Some(l));
}

#[test]
fn sub_object_value_replicates_through_container() {
    // A shield lives on a structure system: a sub-object addressed
    // through its container.
    let mut registry = ComponentRegistry::new();
    let charge = register(
        &mut registry,
        b"cosmos:shield_charge".to_vec(),
        ComponentSyncPolicy::Shared { rule: AuthorityRule::Unrestricted },
    );

    let mut server = EntityStore::new();
    let craft = server.create_entity();
    let system = server.create_entity();
    server.register_sub_object(craft, 2, system);
    server.upsert_component(system, charge, vec![0x42]);

    let (msgs, _) = send_changed_components(&mut server, &registry, true);
    assert_eq!(msgs.len(), 1);

    // The client knows the craft and its system already; the indirect
    // reference resolves without creating anything.
    let mut client = EntityStore::new();
    let mut table = EntityIdentityTable::new();
    let c_local = client.create_entity();
    let s_local = client.create_entity();
    client.register_sub_object(c_local, 2, s_local);
    table.insert(craft, c_local);

    let before = client.len();
    for m in &msgs {
        let frame = encode_message(m);
        let msg = decode_message(&frame).unwrap();
        assert_eq!(
            client_apply_message(&mut client, &mut table, &registry, &msg),
            ApplyOutcome::Applied
        );
    }
    assert_eq!(client.len(), before);
    assert_eq!(client.get_component(s_local, charge), Some(&vec![0x42]));
}
