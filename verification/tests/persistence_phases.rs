//! Phase ordering of the loading schedules, and the loading markers.

use cosmos_core::persistence::{LoadingBlueprintSystemSet, LoadingSystemSet, NeedsLoaded};
use cosmos_core::loading::StructureLoadingSet;
use cosmos_core::store::EntityStore;

#[test]
fn loading_phases_run_in_declared_order() {
    let loading = [
        LoadingSystemSet::BeginLoading,
        LoadingSystemSet::FlushBeginLoading,
        LoadingSystemSet::DoLoading,
        LoadingSystemSet::FlushDoLoading,
        LoadingSystemSet::DoneLoading,
        LoadingSystemSet::FlushDoneLoading,
    ];
    for w in loading.windows(2) {
        assert!(w[0].rank() < w[1].rank());
    }
    let blueprints = [
        LoadingBlueprintSystemSet::BeginLoadingBlueprints,
        LoadingBlueprintSystemSet::FlushBeginLoadingBlueprints,
        LoadingBlueprintSystemSet::DoLoadingBlueprints,
        LoadingBlueprintSystemSet::FlushDoLoadingBlueprints,
        LoadingBlueprintSystemSet::DoneLoadingBlueprints,
        LoadingBlueprintSystemSet::FlushDoneLoadingBlueprints,
    ];
    for w in blueprints.windows(2) {
        assert!(w[0].rank() < w[1].rank());
    }
    // Every blueprint phase runs before every ordinary loading phase.
    for b in &blueprints {
        for l in &loading {
            assert!(b.rank() < l.rank());
        }
    }
}

#[test]
fn structure_loading_phases_run_in_declared_order() {
    let phases = [
        StructureLoadingSet::LoadStructure,
        StructureLoadingSet::AddStructureComponents,
        StructureLoadingSet::CreateChunkEntities,
        StructureLoadingSet::FlushChunkComponents,
        StructureLoadingSet::InitializeChunkBlockData,
        StructureLoadingSet::FlushBlockDataBase,
        StructureLoadingSet::LoadChunkData,
        StructureLoadingSet::FlushLoadChunkData,
        StructureLoadingSet::StructureLoaded,
    ];
    for w in phases.windows(2) {
        assert!(w[0].rank() < w[1].rank());
    }
}

#[test]
fn needs_loaded_marker_attaches_and_detaches() {
    let mut store = EntityStore::new();
    let e = store.create_entity();
    assert_eq!(store.get_needs_loaded(e), None);
    store.set_needs_loaded(e, Some(NeedsLoaded));
    assert_eq!(store.get_needs_loaded(e), Some(NeedsLoaded));
    // Loading finished: the marker comes off.
    store.set_needs_loaded(e, None);
    assert_eq!(store.get_needs_loaded(e), None);
}
