//! The staged structure-loading pipeline.
//!
//! A loadable entity passes through the stages `Stub`, `AwaitingData`,
//! `Populating` and `Ready`, in that order, driven by counted
//! "one more data unit arrived" events. Structural mutations queued while
//! the entity loads are committed at a single barrier, so no reader ever
//! observes a half-populated object; the "loaded" notification fires
//! exactly once per load episode.

use vstd::prelude::*;

use crate::store::{
    cchanged, cdata, chas, cidx, comp_changed, comp_data, comps_wf, ent, find_kind_index,
    has_entity, lemma_comp_at, lemma_comp_push, lemma_comp_replace, lemma_ent_replace,
    lemma_wf_carries, others_unchanged, pending_view, stage_of, subs_wf, ComponentEntry,
    EntityRecord, EntityStore,
};

verus! {

/// Attached while not all of a structure's chunks have been filled out
/// yet: how many are still needed.
#[derive(Debug, Clone, Copy, PartialEq, Eq, Structural)]
pub struct ChunksNeedLoaded {
    /// The number of chunks that still need to be loaded.
    pub amount_needed: usize,
}

/// The loading stage of one loadable entity.
#[derive(Debug, Clone, Copy, PartialEq, Eq, Structural)]
pub enum LoadStage {
    /// The handle exists but the object is not yet safe to read.
    Stub,
    /// Counting down the data units still needed.
    AwaitingData {
        /// How many data units are still needed.
        counter: ChunksNeedLoaded,
    },
    /// The barrier: queued structural mutations are being committed.
    Populating,
    /// Fully populated; dependent systems may read and write freely.
    Ready,
}

/// The stages in pipeline order; transitions never decrease this within a
/// load episode.
pub open spec fn stage_rank(s: LoadStage) -> int {
    match s {
        LoadStage::Stub => 0,
        LoadStage::AwaitingData { .. } => 1,
        LoadStage::Populating => 2,
        LoadStage::Ready => 3,
    }
}

/// The ordered phases that create and populate one structure.
#[derive(Debug, Clone, Copy, PartialEq, Eq, Hash)]
pub enum StructureLoadingSet {
    /// Sets the structure being loaded up.
    LoadStructure,
    /// Adds the structure components that must be present.
    AddStructureComponents,
    /// Creates the entities its chunks will use.
    CreateChunkEntities,
    /// Flush barrier.
    FlushChunkComponents,
    /// Sets up the per-chunk block data holders.
    InitializeChunkBlockData,
    /// Flush barrier.
    FlushBlockDataBase,
    /// Loads each chunk's block data.
    LoadChunkData,
    /// Flush barrier.
    FlushLoadChunkData,
    /// Runs once the structure finished loading, to notify dependents.
    StructureLoaded,
}

/// Where each structure-loading phase stands in the tick's schedule.
pub open spec fn spec_structure_loading_rank(s: StructureLoadingSet) -> int {
    match s {
        StructureLoadingSet::LoadStructure => 0,
        StructureLoadingSet::AddStructureComponents => 1,
        StructureLoadingSet::CreateChunkEntities => 2,
        StructureLoadingSet::FlushChunkComponents => 3,
        StructureLoadingSet::InitializeChunkBlockData => 4,
        StructureLoadingSet::FlushBlockDataBase => 5,
        StructureLoadingSet::LoadChunkData => 6,
        StructureLoadingSet::FlushLoadChunkData => 7,
        StructureLoadingSet::StructureLoaded => 8,
    }
}

impl StructureLoadingSet {
    /// The phase's position in the schedule; phases run in rank order.
    pub fn rank(&self) -> (r: u8)
        ensures
            r == spec_structure_loading_rank(*self),
    {
        match self {
            StructureLoadingSet::LoadStructure => 0,
            StructureLoadingSet::AddStructureComponents => 1,
            StructureLoadingSet::CreateChunkEntities => 2,
            StructureLoadingSet::FlushChunkComponents => 3,
            StructureLoadingSet::InitializeChunkBlockData => 4,
            StructureLoadingSet::FlushBlockDataBase => 5,
            StructureLoadingSet::LoadChunkData => 6,
            StructureLoadingSet::FlushLoadChunkData => 7,
            StructureLoadingSet::StructureLoaded => 8,
        }
    }
}

/// Distinct structure-loading phases never share a rank.
pub proof fn lemma_structure_loading_schedule_strict(a: StructureLoadingSet, b: StructureLoadingSet)
    ensures
        spec_structure_loading_rank(a) == spec_structure_loading_rank(b) ==> a == b,
{
}


/// All record fields that the loading pipeline never touches.
pub open spec fn same_but_loading(r0: EntityRecord, r1: EntityRecord) -> bool {
    &&& r1.handle == r0.handle
    &&& r1.sub_objects == r0.sub_objects
    &&& r1.parent == r0.parent
    &&& r1.no_send == r0.no_send
    &&& r1.needs_loaded == r0.needs_loaded
}

/// The stage after one unit-loaded notification: the counter goes down by
/// one, and hitting zero moves the entity to the `Populating` barrier.
/// Every other stage ignores the notification.
pub open spec fn stage_after_unit(s: LoadStage) -> LoadStage {
    match s {
        LoadStage::AwaitingData { counter } => {
            if counter.amount_needed > 1 {
                LoadStage::AwaitingData {
                    counter: ChunksNeedLoaded { amount_needed: (counter.amount_needed - 1) as usize },
                }
            } else if counter.amount_needed == 1 {
                LoadStage::Populating
            } else {
                s
            }
        },
        _ => s,
    }
}

/// Whether this unit-loaded notification is the one that empties the
/// counter.
pub open spec fn unit_hits_zero(s: LoadStage) -> bool {
    match s {
        LoadStage::AwaitingData { counter } => counter.amount_needed == 1,
        _ => false,
    }
}

/// The loaded notification cannot fire twice in one episode: the commit
/// fires only from `Populating` and leaves the entity `Ready`, where both
/// driving operations are no-ops; only an explicit reset leaves `Ready`.
pub proof fn lemma_loaded_notification_once()
    ensures
        stage_after_unit(LoadStage::Ready) == LoadStage::Ready,
        !unit_hits_zero(LoadStage::Ready),
        stage_after_unit(LoadStage::Populating) == LoadStage::Populating,
        !unit_hits_zero(LoadStage::Populating),
{
}

impl EntityStore {
    /// Attaches the "needs this many more data units" counter to a stub,
    /// moving it to `AwaitingData`.
    pub fn begin_awaiting(&mut self, h: u64, needed: ChunksNeedLoaded)
        requires
            old(self).wf(),
            has_entity(old(self)@, h),
            stage_of(old(self)@, h) == LoadStage::Stub,
        ensures
            final(self).wf(),
            forall|h2: u64| has_entity(final(self)@, h2) <==> has_entity(old(self)@, h2),
            others_unchanged(old(self)@, final(self)@, h),
            ent(final(self)@, h) == (EntityRecord {
                stage: LoadStage::AwaitingData { counter: needed },
                ..ent(old(self)@, h)
            }),
            final(self).removed() == old(self).removed(),
            final(self).spec_next_handle() == old(self).spec_next_handle(),
    {
        self.set_stage_inner(h, LoadStage::AwaitingData { counter: needed });
    }

    /// Starts a fresh load episode: back to `Stub`, queued mutations
    /// dropped. This is the one transition that may lower the stage.
    pub fn reset_load(&mut self, h: u64)
        requires
            old(self).wf(),
            has_entity(old(self)@, h),
        ensures
            final(self).wf(),
            forall|h2: u64| has_entity(final(self)@, h2) <==> has_entity(old(self)@, h2),
            others_unchanged(old(self)@, final(self)@, h),
            same_but_loading(ent(old(self)@, h), ent(final(self)@, h)),
            ent(final(self)@, h).components == ent(old(self)@, h).components,
            stage_of(final(self)@, h) == LoadStage::Stub,
            pending_view(final(self)@, h).len() == 0,
            final(self).removed() == old(self).removed(),
            final(self).spec_next_handle() == old(self).spec_next_handle(),
    {
        let ghost t0 = self@;
        let i = match self.find_index(h) {
            Some(i) => i,
            None => {
                proof {
                    assert(false);
                }
                return ;
            },
        };
        let ghost r0 = t0[i as int];
        proof {
            assert(comps_wf(r0.components@));
            assert(comps_wf(r0.pending@));
            assert(subs_wf(r0.sub_objects@));
            assert(r0.handle < self.spec_next_handle());
        }
        let mut rec = self.take_record(i);
        rec.stage = LoadStage::Stub;
        rec.pending.clear();
        let ghost recg = rec;
        self.put_record(rec);
        proof {
            lemma_ent_replace(t0, self@, i as int, recg);
            assert forall|h2: u64|
                has_entity(self@, h2) <==> (has_entity(t0, h2) || h2 == recg.handle) by {}
            lemma_wf_carries(t0, self@, recg, self.spec_next_handle());
            assert(pending_view(self@, h) =~= Seq::<(u16, Seq<u8>)>::empty());
        }
    }

    /// Queues a component insertion while the entity loads; it becomes
    /// visible only when the barrier commits. One queued row per kind.
    pub fn queue_mutation(&mut self, h: u64, kind: u16, data: Vec<u8>)
        requires
            old(self).wf(),
            has_entity(old(self)@, h),
            stage_of(old(self)@, h) != LoadStage::Ready,
            cdata(ent(old(self)@, h).pending@, kind) is None,
        ensures
            final(self).wf(),
            forall|h2: u64| has_entity(final(self)@, h2) <==> has_entity(old(self)@, h2),
            others_unchanged(old(self)@, final(self)@, h),
            same_but_loading(ent(old(self)@, h), ent(final(self)@, h)),
            ent(final(self)@, h).components == ent(old(self)@, h).components,
            stage_of(final(self)@, h) == stage_of(old(self)@, h),
            pending_view(final(self)@, h) == pending_view(old(self)@, h).push((kind, data@)),
            final(self).removed() == old(self).removed(),
            final(self).spec_next_handle() == old(self).spec_next_handle(),
    {
        let ghost t0 = self@;
        let i = match self.find_index(h) {
            Some(i) => i,
            None => {
                proof {
                    assert(false);
                }
                return ;
            },
        };
        let ghost r0 = t0[i as int];
        proof {
            assert(comps_wf(r0.components@));
            assert(comps_wf(r0.pending@));
            assert(subs_wf(r0.sub_objects@));
            assert(r0.handle < self.spec_next_handle());
        }
        let mut rec = self.take_record(i);
        let ghost p0 = rec.pending@;
        let entry = ComponentEntry { kind, data, changed: true };
        let ghost e = entry;
        rec.pending.push(entry);
        proof {
            lemma_comp_push(p0, rec.pending@, e);
        }
        let ghost recg = rec;
        self.put_record(rec);
        proof {
            lemma_ent_replace(t0, self@, i as int, recg);
            assert forall|h2: u64|
                has_entity(self@, h2) <==> (has_entity(t0, h2) || h2 == recg.handle) by {}
            lemma_wf_carries(t0, self@, recg, self.spec_next_handle());
            assert(pending_view(self@, h) =~= pending_view(t0, h).push((kind, e.data@)));
        }
    }

    /// Counts one arrived data unit down. Only an `AwaitingData` entity
    /// with a positive counter reacts; hitting zero moves it to the
    /// `Populating` barrier. Returns whether this notification emptied
    /// the counter. A missing entity is a silent no-op.
    pub fn unit_loaded(&mut self, h: u64) -> (hit_zero: bool)
        requires
            old(self).wf(),
        ensures
            final(self).wf(),
            forall|h2: u64| has_entity(final(self)@, h2) <==> has_entity(old(self)@, h2),
            others_unchanged(old(self)@, final(self)@, h),
            has_entity(old(self)@, h) ==> ent(final(self)@, h) == (EntityRecord {
                stage: stage_after_unit(stage_of(old(self)@, h)),
                ..ent(old(self)@, h)
            }),
            !has_entity(old(self)@, h) ==> final(self)@ == old(self)@,
            hit_zero == (has_entity(old(self)@, h) && unit_hits_zero(stage_of(old(self)@, h))),
            stage_rank(stage_of(final(self)@, h)) >= stage_rank(stage_of(old(self)@, h)),
            final(self).removed() == old(self).removed(),
            final(self).spec_next_handle() == old(self).spec_next_handle(),
    {
        let ghost t0 = self@;
        let i = match self.find_index(h) {
            Some(i) => i,
            None => {
                return false;
            },
        };
        let ghost r0 = t0[i as int];
        proof {
            assert(comps_wf(r0.components@));
            assert(comps_wf(r0.pending@));
            assert(subs_wf(r0.sub_objects@));
            assert(r0.handle < self.spec_next_handle());
        }
        let stage = self.get_stage(h);
        let (new_stage, hit_zero) = match stage {
            LoadStage::AwaitingData { counter } => {
                if counter.amount_needed > 1 {
                    (
                        LoadStage::AwaitingData {
                            counter: ChunksNeedLoaded { amount_needed: counter.amount_needed - 1 },
                        },
                        false,
                    )
                } else if counter.amount_needed == 1 {
                    (LoadStage::Populating, true)
                } else {
                    proof {
                        assert(ent(t0, h) == (EntityRecord { stage: stage_after_unit(stage), ..ent(t0, h) }));
                    }
                    return false;
                }
            },
            _ => {
                proof {
                    assert(ent(t0, h) == (EntityRecord { stage: stage_after_unit(stage), ..ent(t0, h) }));
                }
                return false;
            },
        };
        self.set_stage_inner(h, new_stage);
        hit_zero
    }

    /// The loading barrier: commits every queued structural mutation in
    /// one step and marks the entity `Ready`. Returns whether the loaded
    /// notification fires, which happens exactly when the entity stood at
    /// the `Populating` barrier. Anything else is a silent no-op.
    pub fn commit_structural(&mut self, h: u64) -> (loaded: bool)
        requires
            old(self).wf(),
        ensures
            final(self).wf(),
            forall|h2: u64| has_entity(final(self)@, h2) <==> has_entity(old(self)@, h2),
            others_unchanged(old(self)@, final(self)@, h),
            loaded == (has_entity(old(self)@, h) && stage_of(old(self)@, h)
                == LoadStage::Populating),
            !loaded ==> final(self)@ == old(self)@,
            loaded ==> same_but_loading(ent(old(self)@, h), ent(final(self)@, h)),
            loaded ==> stage_of(final(self)@, h) == LoadStage::Ready,
            loaded ==> pending_view(final(self)@, h).len() == 0,
            loaded ==> forall|k: u16|
                cdata(ent(old(self)@, h).pending@, k) is Some ==> comp_data(final(self)@, h, k)
                    == cdata(ent(old(self)@, h).pending@, k) && comp_changed(final(self)@, h, k)
                    == cchanged(ent(old(self)@, h).pending@, k),
            loaded ==> forall|k: u16|
                cdata(ent(old(self)@, h).pending@, k) is None ==> comp_data(final(self)@, h, k)
                    == comp_data(old(self)@, h, k) && comp_changed(final(self)@, h, k)
                    == comp_changed(old(self)@, h, k),
            forall|h2: u64, k2: u16|
                h2 != h ==> comp_data(final(self)@, h2, k2) == comp_data(old(self)@, h2, k2)
                    && comp_changed(final(self)@, h2, k2) == comp_changed(old(self)@, h2, k2),
            stage_rank(stage_of(final(self)@, h)) >= stage_rank(stage_of(old(self)@, h)),
            final(self).removed() == old(self).removed(),
            final(self).spec_next_handle() == old(self).spec_next_handle(),
    {
        let ghost t0 = self@;
        let i = match self.find_index(h) {
            Some(i) => i,
            None => {
                proof {
                    assert forall|h2: u64, k2: u16|
                        h2 != h implies comp_data(self@, h2, k2) == comp_data(t0, h2, k2)
                        && comp_changed(self@, h2, k2) == comp_changed(t0, h2, k2) by {}
                }
                return false;
            },
        };
        let ghost r0 = t0[i as int];
        proof {
            assert(comps_wf(r0.components@));
            assert(comps_wf(r0.pending@));
            assert(subs_wf(r0.sub_objects@));
            assert(r0.handle < self.spec_next_handle());
        }
        let stage = self.get_stage(h);
        match stage {
            LoadStage::Populating => {},
            _ => {
                proof {
                    assert forall|h2: u64, k2: u16|
                        h2 != h implies comp_data(self@, h2, k2) == comp_data(t0, h2, k2)
                        && comp_changed(self@, h2, k2) == comp_changed(t0, h2, k2) by {}
                }
                return false;
            },
        }
        let mut rec = self.take_record(i);
        let ghost c0 = rec.components@;
        let ghost p0 = rec.pending@;
        // Move every queued entry into the component table.
        while rec.pending.len() > 0
            invariant
                comps_wf(rec.components@),
                comps_wf(p0),
                rec.pending@.len() <= p0.len(),
                rec.pending@ == p0.take(rec.pending@.len() as int),
                rec.handle == r0.handle,
                rec.sub_objects == r0.sub_objects,
                rec.parent == r0.parent,
                rec.no_send == r0.no_send,
                rec.needs_loaded == r0.needs_loaded,
                rec.stage == r0.stage,
                forall|k: u16|
                    chas(rec.components@, k) <==> (chas(c0, k) || (chas(p0, k) && cidx(p0, k)
                        >= rec.pending@.len())),
                forall|k: u16|
                    (chas(p0, k) && cidx(p0, k) >= rec.pending@.len()) ==> cdata(rec.components@, k)
                        == Some(p0[cidx(p0, k)].data@) && cchanged(rec.components@, k) == p0[cidx(
                        p0,
                        k,
                    )].changed,
                forall|k: u16|
                    !(chas(p0, k) && cidx(p0, k) >= rec.pending@.len()) ==> cdata(
                        rec.components@,
                        k,
                    ) == cdata(c0, k) && cchanged(rec.components@, k) == cchanged(c0, k),
            decreases rec.pending@.len(),
        {
            let ghost m = rec.pending@.len() as int;
            let e = match rec.pending.pop() {
                Some(e) => e,
                None => {
                    proof {
                        assert(false);
                    }
                    return false;
                },
            };
            proof {
                assert(rec.pending@ =~= p0.take(m - 1));
                assert(e == p0[m - 1]);
                lemma_comp_at(p0, m - 1);
            }
            let ghost cc0 = rec.components@;
            let ghost eg = e;
            match find_kind_index(&rec.components, e.kind) {
                Some(j) => {
                    rec.components.swap_remove(j);
                    rec.components.push(e);
                    proof {
                        lemma_comp_replace(cc0, rec.components@, j as int, eg);
                    }
                },
                None => {
                    rec.components.push(e);
                    proof {
                        lemma_comp_push(cc0, rec.components@, eg);
                    }
                },
            }
            proof {
                assert forall|k: u16|
                    (chas(p0, k) && cidx(p0, k) >= rec.pending@.len()) implies cdata(
                    rec.components@, k) == Some(p0[cidx(p0, k)].data@) && cchanged(
                    rec.components@, k) == p0[cidx(p0, k)].changed by {
                    if k == eg.kind {
                        assert(cidx(p0, k) == m - 1);
                    } else {
                        assert(cidx(p0, k) >= m);
                    }
                }
            }
        }
        proof {
            assert(rec.pending@ =~= p0.take(0));
            assert(rec.pending@.len() == 0);
        }
        rec.stage = LoadStage::Ready;
        let ghost recg = rec;
        self.put_record(rec);
        proof {
            lemma_ent_replace(t0, self@, i as int, recg);
            assert forall|h2: u64|
                has_entity(self@, h2) <==> (has_entity(t0, h2) || h2 == recg.handle) by {}
            lemma_wf_carries(t0, self@, recg, self.spec_next_handle());
            assert(pending_view(self@, h) =~= Seq::<(u16, Seq<u8>)>::empty());
            assert forall|k: u16|
                cdata(p0, k) is Some implies comp_data(self@, h, k) == cdata(p0, k)
                && comp_changed(self@, h, k) == cchanged(p0, k) by {
                let j = cidx(p0, k);
                lemma_comp_at(p0, j);
                assert(chas(p0, k) && cidx(p0, k) >= 0);
            }
            assert forall|h2: u64, k2: u16|
                h2 != h implies comp_data(self@, h2, k2) == comp_data(t0, h2, k2) && comp_changed(
                self@, h2, k2) == comp_changed(t0, h2, k2) by {
                if has_entity(t0, h2) {
                    assert(ent(self@, h2) == ent(t0, h2));
                }
            }
        }
        true
    }
}

} // verus!
