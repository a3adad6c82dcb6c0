//! The staged loading pipeline: counters, the barrier, and the builders.

use cosmos_core::loading::{ChunksNeedLoaded, LoadStage};
use cosmos_core::store::EntityStore;
use cosmos_core::structure::{ClientStructureBuilder, StructureBuilder};

#[test]
fn loading_barrier_counts_to_ready_exactly_once() {
    let mut store = EntityStore::new();
    let e = store.create_entity();
    store.begin_awaiting(e, ChunksNeedLoaded { amount_needed: 3 });
    assert_eq!(
        store.get_stage(e),
        LoadStage::AwaitingData { counter: ChunksNeedLoaded { amount_needed: 3 } }
    );

    // Two notifications are not enough.
    assert!(!store.unit_loaded(e));
    assert!(!store.unit_loaded(e));
    assert_ne!(store.get_stage(e), LoadStage::Ready);
    assert!(!store.commit_structural(e));
    assert_ne!(store.get_stage(e), LoadStage::Ready);

    // The third empties the counter; the barrier commits to Ready and the
    // loaded notification fires exactly once.
    assert!(store.unit_loaded(e));
    assert_eq!(store.get_stage(e), LoadStage::Populating);
    assert!(store.commit_structural(e));
    assert_eq!(store.get_stage(e), LoadStage::Ready);

    // A fourth, spurious notification changes nothing and nothing fires
    // again.
    assert!(!store.unit_loaded(e));
    assert!(!store.commit_structural(e));
    assert_eq!(store.get_stage(e), LoadStage::Ready);
}

#[test]
fn barrier_commits_queued_mutations_atomically() {
    let mut store = EntityStore::new();
    let e = store.create_entity();
    store.begin_awaiting(e, ChunksNeedLoaded { amount_needed: 1 });
    store.queue_mutation(e, 4, vec![1, 2]);
    store.queue_mutation(e, 5, vec![3]);
    // Queued mutations are invisible before the barrier.
    assert_eq!(store.get_component(e, 4), None);
    assert_eq!(store.get_component(e, 5), None);
    assert!(store.unit_loaded(e));
    assert_eq!(store.get_component(e, 4), None);
    // The barrier commits them all at once.
    assert!(store.commit_structural(e));
    assert_eq!(store.get_component(e, 4), Some(&vec![1, 2]));
    assert_eq!(store.get_component(e, 5), Some(&vec![3]));
}

#[test]
fn reset_starts_a_fresh_episode() {
    let mut store = EntityStore::new();
    let e = store.create_entity();
    store.begin_awaiting(e, ChunksNeedLoaded { amount_needed: 1 });
    assert!(store.unit_loaded(e));
    assert!(store.commit_structural(e));
    assert_eq!(store.get_stage(e), LoadStage::Ready);
    // Re-entering Stub is the only way out of Ready.
    store.reset_load(e);
    assert_eq!(store.get_stage(e), LoadStage::Stub);
    store.begin_awaiting(e, ChunksNeedLoaded { amount_needed: 1 });
    assert!(store.unit_loaded(e));
    assert!(store.commit_structural(e));
    assert_eq!(store.get_stage(e), LoadStage::Ready);
}

#[test]
fn structure_builder_registers_chunks() {
    let mut store = EntityStore::new();
    let e = store.create_entity();
    let builder = StructureBuilder::default();
    builder.insert_structure(&mut store, e, 4);
    assert_eq!(store.len(), 5);
    for d in 0..4u32 {
        let chunk = store.lookup_sub_object(e, d).unwrap();
        assert!(store.has(chunk));
        let parent = store.parent_of_entity(chunk).unwrap();
        assert_eq!(parent.container, e);
        assert_eq!(parent.sub_id, d);
    }
    assert_eq!(store.lookup_sub_object(e, 4), None);
}

#[test]
fn client_structure_builder_gates_behind_loading() {
    let mut store = EntityStore::new();
    let e = store.create_entity();
    let builder = ClientStructureBuilder::default();
    builder.insert_structure(&mut store, e, 2);
    assert_eq!(
        store.get_stage(e),
        LoadStage::AwaitingData { counter: ChunksNeedLoaded { amount_needed: 1 } }
    );
    assert!(store.unit_loaded(e));
    assert!(store.commit_structural(e));
    assert_eq!(store.get_stage(e), LoadStage::Ready);
}
