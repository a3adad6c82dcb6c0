//! The authoritative side's receive path: routing frames to events, and
//! removals relayed onward.

use cosmos_core::authority::{AuthorityRule, ComponentSyncPolicy, Pilots, ServerLobby};
use cosmos_core::registry::{register, ComponentRegistry};
use cosmos_core::store::EntityStore;
use cosmos_core::sync::{
    request_entity_messages, server_apply_remove, server_receive_components,
    sync_removed_components, ApplyOutcome,
};
use cosmos_core::wire::{encode_message, ReplicationMessage, WireEntityRef};

#[test]
fn routing_resolves_and_drops_bad_frames() {
    let mut store = EntityStore::new();
    let craft = store.create_entity();
    let system = store.create_entity();
    store.register_sub_object(craft, 1, system);

    let good_direct = encode_message(&ReplicationMessage::Upsert {
        component_kind: 4,
        wire_ref: WireEntityRef::Direct { origin_handle: craft },
        payload: vec![1],
    });
    let good_indirect = encode_message(&ReplicationMessage::Remove {
        component_kind: 4,
        wire_ref: WireEntityRef::Indirect {
            container: Box::new(WireEntityRef::Direct { origin_handle: craft }),
            sub_id: 1,
        },
    });
    let unknown_entity = encode_message(&ReplicationMessage::Upsert {
        component_kind: 4,
        wire_ref: WireEntityRef::Direct { origin_handle: 999 },
        payload: vec![1],
    });
    let malformed = vec![0xFF, 0xEE];

    let frames = vec![good_direct, malformed, unknown_entity, good_indirect];
    let (sync_events, remove_events) = server_receive_components(&store, 50, &frames);

    // The two bad frames are dropped; the drain continues past them.
    assert_eq!(sync_events.len(), 1);
    assert_eq!(remove_events.len(), 1);
    assert_eq!(sync_events[0].entity, craft);
    assert_eq!(sync_events[0].authority_entity, craft);
    assert_eq!(sync_events[0].raw_data, vec![1]);
    // The sub-object resolves through its container; authority is
    // checked against the container.
    assert_eq!(remove_events[0].entity, system);
    assert_eq!(remove_events[0].authority_entity, craft);
}

#[test]
fn applied_removal_is_logged_for_relay() {
    let mut store = EntityStore::new();
    let player = store.create_entity();
    let mut lobby = ServerLobby::new();
    lobby.add_player(50, player);
    let pilots = Pilots::new();
    let mut registry = ComponentRegistry::new();
    let kind = register(
        &mut registry,
        b"cosmos:looking".to_vec(),
        ComponentSyncPolicy::Shared { rule: AuthorityRule::MustBeSelf },
    );
    store.upsert_component(player, kind, vec![5]);
    // Drain the insert first so only the removal remains.
    let _ = cosmos_core::sync::send_changed_components(&mut store, &registry, true);

    let ev = cosmos_core::sync::GotComponentToRemoveEvent {
        client_id: 50,
        component_id: kind,
        entity: player,
        authority_entity: player,
    };
    assert_eq!(
        server_apply_remove(&mut store, &lobby, &pilots, &registry, &ev),
        ApplyOutcome::Applied
    );
    assert_eq!(store.get_component(player, kind), None);

    // The removal is relayed onward to the other clients.
    let removals = sync_removed_components(&mut store, &registry, true);
    assert_eq!(removals.len(), 1);
    match &removals[0] {
        ReplicationMessage::Remove { component_kind, wire_ref } => {
            assert_eq!(*component_kind, kind);
            assert_eq!(*wire_ref, WireEntityRef::Direct { origin_handle: player });
        }
        _ => panic!("expected a removal"),
    }

    // Removing an absent component again is a silent no-op: nothing to
    // relay.
    assert_eq!(
        server_apply_remove(&mut store, &lobby, &pilots, &registry, &ev),
        ApplyOutcome::Applied
    );
    assert_eq!(sync_removed_components(&mut store, &registry, true).len(), 0);
}

#[test]
fn requested_entity_data_is_answered_in_full() {
    let mut store = EntityStore::new();
    let e = store.create_entity();
    let mut registry = ComponentRegistry::new();
    let served = register(&mut registry, b"cosmos:shield".to_vec(), ComponentSyncPolicy::AuthoritativeSide);
    let private = register(
        &mut registry,
        b"cosmos:player_input".to_vec(),
        ComponentSyncPolicy::ClientOwned { rule: AuthorityRule::Unrestricted },
    );
    store.upsert_component(e, served, vec![7, 7]);
    store.upsert_component(e, private, vec![8]);

    let replies = request_entity_messages(&store, &registry, e);
    // Only the server-sent component is announced.
    assert_eq!(replies.len(), 1);
    match &replies[0] {
        ReplicationMessage::Upsert { component_kind, wire_ref, payload } => {
            assert_eq!(*component_kind, served);
            assert_eq!(*wire_ref, WireEntityRef::Direct { origin_handle: e });
            assert_eq!(*payload, vec![7, 7]);
        }
        _ => panic!("expected an upsert"),
    }

    // A request for an unknown entity is answered with nothing.
    assert_eq!(request_entity_messages(&store, &registry, 999).len(), 0);
}
