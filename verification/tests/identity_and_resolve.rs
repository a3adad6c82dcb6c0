//! Identity table lifecycle and the two resolution directions.

use cosmos_core::identity::{remove_mappings, EntityIdentityTable};
use cosmos_core::resolve::{
    resolve_for_receive, resolve_for_send, resolve_no_create, ResolveError,
};
use cosmos_core::store::EntityStore;
use cosmos_core::wire::WireEntityRef;

#[test]
fn table_insert_lookup_forget() {
    let mut t = EntityIdentityTable::new();
    t.insert(7, 101);
    t.insert(8, 102);
    assert_eq!(t.local_of(7), Some(101));
    assert_eq!(t.local_of(8), Some(102));
    assert_eq!(t.origin_of(101), Some(7));
    assert_eq!(t.origin_of(9), None);
    assert_eq!(t.len(), 2);
    t.forget(7);
    assert_eq!(t.local_of(7), None);
    assert_eq!(t.local_of(8), Some(102));
    // idempotent
    t.forget(7);
    assert_eq!(t.len(), 1);
    t.clear();
    assert_eq!(t.len(), 0);
}

#[test]
fn remove_mappings_drops_despawned_rows() {
    let mut t = EntityIdentityTable::new();
    t.insert(1, 11);
    t.insert(2, 12);
    t.insert(3, 13);
    remove_mappings(&mut t, &vec![11, 13, 99]);
    assert_eq!(t.local_of(1), None);
    assert_eq!(t.local_of(2), Some(12));
    assert_eq!(t.local_of(3), None);
    assert_eq!(t.len(), 1);
}

#[test]
fn direct_resolution_creates_once() {
    let mut store = EntityStore::new();
    let mut table = EntityIdentityTable::new();
    let wire = WireEntityRef::Direct { origin_handle: 7 };

    // Without creation rights the first sighting fails.
    assert_eq!(
        resolve_for_receive(&mut store, &mut table, &wire, false),
        Err(ResolveError::UnknownOrigin)
    );
    assert_eq!(store.len(), 0);

    // With creation rights a local stub appears with its identity row.
    let l = resolve_for_receive(&mut store, &mut table, &wire, true).unwrap();
    assert_eq!(store.len(), 1);
    assert!(store.has(l));
    assert_eq!(table.local_of(7), Some(l));

    // A second sighting resolves to the same stub, creating nothing.
    assert_eq!(resolve_for_receive(&mut store, &mut table, &wire, true), Ok(l));
    assert_eq!(store.len(), 1);
    assert_eq!(table.len(), 1);
}

#[test]
fn indirect_resolution_never_creates() {
    let mut store = EntityStore::new();
    let mut table = EntityIdentityTable::new();
    // The container (origin 7) is not known here.
    let wire = WireEntityRef::Indirect {
        container: Box::new(WireEntityRef::Direct { origin_handle: 7 }),
        sub_id: 0,
    };
    let r = resolve_for_receive(&mut store, &mut table, &wire, true);
    assert_eq!(r, Err(ResolveError::UnknownOrigin));
    // Nothing was created: no entity, no identity row, even with
    // creation rights.
    assert_eq!(store.len(), 0);
    assert_eq!(table.len(), 0);
}

#[test]
fn indirect_resolution_missing_sub_object() {
    let mut store = EntityStore::new();
    let mut table = EntityIdentityTable::new();
    let container = store.create_entity();
    table.insert(7, container);
    let wire = WireEntityRef::Indirect {
        container: Box::new(WireEntityRef::Direct { origin_handle: 7 }),
        sub_id: 4,
    };
    assert_eq!(
        resolve_for_receive(&mut store, &mut table, &wire, true),
        Err(ResolveError::SubObjectMissing)
    );
    assert_eq!(store.len(), 1);
}

#[test]
fn send_and_receive_resolution_agree() {
    // Authoritative side: a container with one sub-object.
    let mut server = EntityStore::new();
    let container = server.create_entity();
    let sub = server.create_entity();
    server.register_sub_object(container, 5, sub);

    // The sub-object travels as an indirect reference.
    let wire = resolve_for_send(&server, sub).unwrap();
    assert_eq!(
        wire,
        WireEntityRef::Indirect {
            container: Box::new(WireEntityRef::Direct { origin_handle: container }),
            sub_id: 5,
        }
    );
    // A top-level entity travels directly.
    assert_eq!(
        resolve_for_send(&server, container),
        Some(WireEntityRef::Direct { origin_handle: container })
    );

    // Mirror side: the container is known, its sub-object registered.
    let mut client = EntityStore::new();
    let mut table = EntityIdentityTable::new();
    let c_local = client.create_entity();
    let s_local = client.create_entity();
    client.register_sub_object(c_local, 5, s_local);
    table.insert(container, c_local);
    assert_eq!(resolve_no_create(&client, &table, &wire), Ok(s_local));
}
