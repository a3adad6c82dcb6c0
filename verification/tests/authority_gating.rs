//! Authority validation and its gate in front of client writes.

use cosmos_core::authority::{
    validate_authority, AuthorityRule, ComponentSyncPolicy, Pilots, ServerLobby,
};
use cosmos_core::registry::{register, ComponentRegistry};
use cosmos_core::store::EntityStore;
use cosmos_core::sync::{server_apply_upsert, ApplyOutcome, GotComponentToSyncEvent};

fn setup() -> (EntityStore, ServerLobby, Pilots, ComponentRegistry, u64, u64, u16) {
    let mut store = EntityStore::new();
    let craft = store.create_entity();
    let player = store.create_entity();
    let mut lobby = ServerLobby::new();
    lobby.add_player(50, player);
    let pilots = Pilots::new();
    let mut registry = ComponentRegistry::new();
    let kind = register(
        &mut registry,
        b"cosmos:ship_movement".to_vec(),
        ComponentSyncPolicy::ClientOwned { rule: AuthorityRule::MustControlEntity },
    );
    (store, lobby, pilots, registry, craft, player, kind)
}

#[test]
fn validate_authority_rules() {
    let (_, lobby, mut pilots, _, craft, player, _) = setup();
    assert!(validate_authority(AuthorityRule::Unrestricted, &lobby, &pilots, 50, craft));
    // MustBeSelf: only the connection's own player passes.
    assert!(validate_authority(AuthorityRule::MustBeSelf, &lobby, &pilots, 50, player));
    assert!(!validate_authority(AuthorityRule::MustBeSelf, &lobby, &pilots, 50, craft));
    assert!(!validate_authority(AuthorityRule::MustBeSelf, &lobby, &pilots, 51, player));
    // MustControlEntity: only while the player pilots the craft.
    assert!(!validate_authority(AuthorityRule::MustControlEntity, &lobby, &pilots, 50, craft));
    pilots.set_pilot(player, craft);
    assert!(validate_authority(AuthorityRule::MustControlEntity, &lobby, &pilots, 50, craft));
    pilots.clear_pilot(player);
    assert!(!validate_authority(AuthorityRule::MustControlEntity, &lobby, &pilots, 50, craft));
}

#[test]
fn uncontrolled_write_is_dropped_without_mutation() {
    let (mut store, lobby, pilots, registry, craft, _player, kind) = setup();
    // The connection does not control the craft: the write is dropped and
    // no component appears.
    let ev = GotComponentToSyncEvent {
        client_id: 50,
        component_id: kind,
        entity: craft,
        authority_entity: craft,
        raw_data: vec![9, 9, 9],
    };
    let r = server_apply_upsert(&mut store, &lobby, &pilots, &registry, &ev);
    assert_eq!(r, ApplyOutcome::DroppedAuthority);
    assert_eq!(store.get_component(craft, kind), None);
}

#[test]
fn controlling_write_applies() {
    let (mut store, lobby, mut pilots, registry, craft, player, kind) = setup();
    pilots.set_pilot(player, craft);
    let ev = GotComponentToSyncEvent {
        client_id: 50,
        component_id: kind,
        entity: craft,
        authority_entity: craft,
        raw_data: vec![9, 9, 9],
    };
    let r = server_apply_upsert(&mut store, &lobby, &pilots, &registry, &ev);
    assert_eq!(r, ApplyOutcome::Applied);
    assert_eq!(store.get_component(craft, kind), Some(&vec![9, 9, 9]));
}

#[test]
fn server_authoritative_kind_rejects_client_writes() {
    let (mut store, lobby, pilots, mut registry, craft, _player, _) = setup();
    let kind = register(&mut registry, b"cosmos:shield".to_vec(), ComponentSyncPolicy::AuthoritativeSide);
    let ev = GotComponentToSyncEvent {
        client_id: 50,
        component_id: kind,
        entity: craft,
        authority_entity: craft,
        raw_data: vec![1],
    };
    assert_eq!(
        server_apply_upsert(&mut store, &lobby, &pilots, &registry, &ev),
        ApplyOutcome::DroppedPolicy
    );
    assert_eq!(store.get_component(craft, kind), None);
}

#[test]
fn unknown_kind_is_dropped() {
    let (mut store, lobby, pilots, registry, craft, _player, _) = setup();
    let ev = GotComponentToSyncEvent {
        client_id: 50,
        component_id: 999,
        entity: craft,
        authority_entity: craft,
        raw_data: vec![1],
    };
    assert_eq!(
        server_apply_upsert(&mut store, &lobby, &pilots, &registry, &ev),
        ApplyOutcome::DroppedUnknownKind
    );
}

#[test]
fn unknown_sender_is_dropped() {
    let (mut store, lobby, pilots, registry, craft, _player, kind) = setup();
    let ev = GotComponentToSyncEvent {
        client_id: 77, // never connected
        component_id: kind,
        entity: craft,
        authority_entity: craft,
        raw_data: vec![1],
    };
    assert_eq!(
        server_apply_upsert(&mut store, &lobby, &pilots, &registry, &ev),
        ApplyOutcome::DroppedAuthority
    );
}
