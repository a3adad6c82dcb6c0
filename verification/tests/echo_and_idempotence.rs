//! Idempotence of apply and echo suppression between two senders.

use cosmos_core::authority::{AuthorityRule, ComponentSyncPolicy};
use cosmos_core::identity::EntityIdentityTable;
use cosmos_core::registry::{register, ComponentRegistry};
use cosmos_core::store::EntityStore;
use cosmos_core::sync::{
    client_apply_message, send_changed_components, ApplyOutcome,
};
use cosmos_core::wire::{ReplicationMessage, WireEntityRef};

fn shared_registry() -> (ComponentRegistry, u16) {
    let mut registry = ComponentRegistry::new();
    let kind = register(
        &mut registry,
        b"cosmos:looking".to_vec(),
        ComponentSyncPolicy::Shared { rule: AuthorityRule::Unrestricted },
    );
    (registry, kind)
}

fn upsert(kind: u16, origin: u64, payload: Vec<u8>) -> ReplicationMessage {
    ReplicationMessage::Upsert {
        component_kind: kind,
        wire_ref: WireEntityRef::Direct { origin_handle: origin },
        payload,
    }
}

#[test]
fn apply_twice_equals_apply_once() {
    let (registry, kind) = shared_registry();
    let mut store = EntityStore::new();
    let mut table = EntityIdentityTable::new();

    let m = upsert(kind, 7, vec![4, 5, 6]);
    let first = client_apply_message(&mut store, &mut table, &registry, &m);
    assert_eq!(first, ApplyOutcome::Applied);
    let l = table.local_of(7).unwrap();
    let after_once = store.get_component(l, kind).cloned();
    let changed_once = store.is_component_changed(l, kind);
    let entities_once = store.len();

    // The identical message again: suppressed as an echo, and the state
    // reads exactly as after the first application.
    let second = client_apply_message(&mut store, &mut table, &registry, &m);
    assert_eq!(second, ApplyOutcome::SuppressedEcho);
    assert_eq!(store.get_component(l, kind).cloned(), after_once);
    assert_eq!(store.is_component_changed(l, kind), changed_once);
    assert_eq!(store.len(), entities_once);
    assert_eq!(table.len(), 1);
}

#[test]
fn apply_twice_client_owned_kind() {
    // Under a policy without echo suppression the second application
    // overwrites with the same bytes: still the same state.
    let mut registry = ComponentRegistry::new();
    let kind = register(
        &mut registry,
        b"cosmos:player_input".to_vec(),
        ComponentSyncPolicy::ClientOwned { rule: AuthorityRule::Unrestricted },
    );
    let mut store = EntityStore::new();
    let mut table = EntityIdentityTable::new();
    let m = upsert(kind, 7, vec![1, 2]);
    assert_eq!(client_apply_message(&mut store, &mut table, &registry, &m), ApplyOutcome::Applied);
    let l = table.local_of(7).unwrap();
    let after_once = store.get_component(l, kind).cloned();
    assert_eq!(client_apply_message(&mut store, &mut table, &registry, &m), ApplyOutcome::Applied);
    assert_eq!(store.get_component(l, kind).cloned(), after_once);
    assert_eq!(store.len(), 1);
}

#[test]
fn echo_is_suppressed_and_not_resent() {
    let (registry, kind) = shared_registry();

    // Peer B holds the value already, with its change long since drained.
    let mut b_store = EntityStore::new();
    let mut b_table = EntityIdentityTable::new();
    let v = vec![10, 20, 30];

    // B first learns the value from A.
    let m = upsert(kind, 7, v.clone());
    assert_eq!(
        client_apply_message(&mut b_store, &mut b_table, &registry, &m),
        ApplyOutcome::Applied
    );
    // B's own sender drains that change (sending it on elsewhere).
    let (msgs, _) = send_changed_components(&mut b_store, &registry, false);
    assert_eq!(msgs.len(), 1);

    // A's change detection echoes the same value back to B.
    assert_eq!(
        client_apply_message(&mut b_store, &mut b_table, &registry, &m),
        ApplyOutcome::SuppressedEcho
    );

    // No message goes back from B for the unchanged value.
    let (msgs, pairs) = send_changed_components(&mut b_store, &registry, false);
    assert_eq!(msgs.len(), 0);
    assert_eq!(pairs.len(), 0);
}

#[test]
fn changed_value_is_sent_once_then_quiescent() {
    let (registry, kind) = shared_registry();
    let mut store = EntityStore::new();
    let e = store.create_entity();
    store.upsert_component(e, kind, vec![1]);
    let (msgs, pairs) = send_changed_components(&mut store, &registry, true);
    assert_eq!(msgs.len(), 1);
    assert_eq!(pairs, vec![(e, kind)]);
    // Drained: nothing more to send until the value changes again.
    let (msgs, _) = send_changed_components(&mut store, &registry, true);
    assert_eq!(msgs.len(), 0);
    store.upsert_component(e, kind, vec![2]);
    let (msgs, _) = send_changed_components(&mut store, &registry, true);
    assert_eq!(msgs.len(), 1);
}

#[test]
fn no_send_entities_are_excluded() {
    let (registry, kind) = shared_registry();
    let mut store = EntityStore::new();
    let e = store.create_entity();
    store.set_no_send(e, Some(cosmos_core::channel::NoSendEntity));
    store.upsert_component(e, kind, vec![1]);
    let (msgs, pairs) = send_changed_components(&mut store, &registry, true);
    assert_eq!(msgs.len(), 0);
    assert_eq!(pairs.len(), 0);
}
