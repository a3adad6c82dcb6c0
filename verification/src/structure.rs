//! Builders that set a structure entity up for staged loading.
//!
//! A structure is a container whose chunks are sub-objects: the builder
//! creates one fresh chunk entity per chunk and registers each in the
//! structure's sub-object registry under its chunk index. On the client,
//! the structure additionally enters the loading pipeline with its
//! chunks-needed counter attached, so dependent systems cannot observe it
//! until its data has arrived and committed.

use vstd::prelude::*;

use crate::loading::{ChunksNeedLoaded, LoadStage};
use crate::store::{
    comp_changed, comp_data, ent, has_entity, parent_link, stage_of, sub_lookup, EntityStore,
    SubObjectParent,
};

verus! {

/// Builds the chunk sub-objects of a structure entity.
#[derive(Debug, Default)]
pub struct StructureBuilder {}

impl StructureBuilder {
    /// Creates `chunk_count` fresh chunk entities and registers each as a
    /// sub-object of `entity` under its chunk index. Touches no component
    /// and no other entity.
    pub fn insert_structure(&self, store: &mut EntityStore, entity: u64, chunk_count: u32)
        requires
            old(store).wf(),
            has_entity(old(store)@, entity),
            ent(old(store)@, entity).sub_objects@.len() == 0,
            (old(store).spec_next_handle() as int + chunk_count as int) < (u64::MAX as int),
        ensures
            final(store).wf(),
            forall|h: u64| has_entity(old(store)@, h) ==> has_entity(final(store)@, h),
            has_entity(final(store)@, entity),
            forall|d: u32|
                d < chunk_count ==> (#[trigger] sub_lookup(final(store)@, entity, d) matches Some(c)
                    && !has_entity(old(store)@, c) && has_entity(final(store)@, c) && parent_link(
                    final(store)@,
                    c,
                ) == Some(SubObjectParent { container: entity, sub_id: d })),
            forall|d: u32| d >= chunk_count ==> sub_lookup(final(store)@, entity, d) is None,
            forall|h: u64, k: u16|
                comp_data(final(store)@, h, k) == comp_data(old(store)@, h, k) && comp_changed(
                    final(store)@,
                    h,
                    k,
                ) == comp_changed(old(store)@, h, k),
            stage_of(final(store)@, entity) == stage_of(old(store)@, entity),
            final(store).removed() == old(store).removed(),
            final(store).spec_next_handle() == old(store).spec_next_handle() + chunk_count,
    {
        let ghost t0 = store@;
        let ghost next0 = store.spec_next_handle();
        let mut d: u32 = 0;
        while d < chunk_count
            invariant
                d <= chunk_count,
                store.wf(),
                (next0 as int + chunk_count as int) < (u64::MAX as int),
                store.spec_next_handle() == next0 as int + d as int,
                has_entity(store@, entity),
                forall|h: u64| has_entity(t0, h) ==> has_entity(store@, h),
                forall|h: u64| has_entity(store@, h) && h < next0 ==> has_entity(t0, h),
                forall|dd: u32|
                    dd < d ==> (#[trigger] sub_lookup(store@, entity, dd) matches Some(c)
                        && !has_entity(t0, c) && has_entity(store@, c) && parent_link(store@, c)
                        == Some(SubObjectParent { container: entity, sub_id: dd })),
                forall|dd: u32| dd >= d ==> sub_lookup(store@, entity, dd) is None,
                forall|h: u64, k: u16|
                    comp_data(store@, h, k) == comp_data(t0, h, k) && comp_changed(store@, h, k)
                        == comp_changed(t0, h, k),
                stage_of(store@, entity) == stage_of(t0, entity),
                store.removed() == old(store).removed(),
            decreases chunk_count - d,
        {
            let ghost tprev = store@;
            let c = store.create_entity();
            let ghost tmid = store@;
            proof {
                assert(has_entity(tmid, entity));
                assert(ent(tmid, entity) == ent(tprev, entity));
                assert(entity < c) by {
                    let i = crate::store::ent_idx(tprev, entity);
                    assert(0 <= i < tprev.len() && tprev[i].handle == entity);
                }
                assert(sub_lookup(tprev, entity, d) is None);
                assert(sub_lookup(tmid, entity, d) is None);
                assert(parent_link(tmid, c) is None);
            }
            store.register_sub_object(entity, d, c);
            proof {
                let tcur = store@;
                assert(sub_lookup(tcur, entity, d) == Some(c));
                assert(parent_link(tcur, c) == Some(SubObjectParent { container: entity, sub_id: d }));
                assert forall|dd: u32|
                    dd < d + 1 implies (#[trigger] sub_lookup(tcur, entity, dd) matches Some(cc)
                    && !has_entity(t0, cc) && has_entity(tcur, cc) && parent_link(tcur, cc)
                    == Some(SubObjectParent { container: entity, sub_id: dd })) by {
                    if dd < d {
                        assert(sub_lookup(tcur, entity, dd) == sub_lookup(tmid, entity, dd));
                        assert(sub_lookup(tmid, entity, dd) == sub_lookup(tprev, entity, dd));
                        let cc = sub_lookup(tprev, entity, dd).unwrap();
                        assert(cc != c) by {
                            if cc == c {
                                assert(has_entity(tprev, cc));
                                assert(!has_entity(tprev, c));
                            }
                        }
                        assert(cc != entity) by {
                            if cc == entity {
                                assert(parent_link(tprev, entity) == Some(
                                    SubObjectParent { container: entity, sub_id: dd },
                                ));
                                assert(parent_link(tmid, c) is None);
                                let i = crate::store::ent_idx(tprev, entity);
                                assert(tprev[i].parent matches Some(p) ==> p.container
                                    < tprev[i].handle);
                            }
                        }
                        assert(ent(tcur, cc) == ent(tmid, cc));
                        assert(ent(tmid, cc) == ent(tprev, cc));
                        assert(parent_link(tcur, cc) == parent_link(tprev, cc));
                        assert(has_entity(tcur, cc));
                    }
                }
                assert forall|dd: u32| dd >= d + 1 implies sub_lookup(tcur, entity, dd) is None by {
                    assert(sub_lookup(tcur, entity, dd) == sub_lookup(tmid, entity, dd));
                    assert(sub_lookup(tmid, entity, dd) == sub_lookup(tprev, entity, dd));
                }
                assert forall|h: u64, k: u16|
                    comp_data(tcur, h, k) == comp_data(t0, h, k) && comp_changed(tcur, h, k)
                        == comp_changed(t0, h, k) by {
                    assert(comp_data(tmid, h, k) == comp_data(tprev, h, k) && comp_changed(
                        tmid,
                        h,
                        k,
                    ) == comp_changed(tprev, h, k)) by {
                        if h == c {
                            assert(comp_data(tprev, c, k) is None);
                            assert(ent(tmid, c).components@.len() == 0);
                            assert(!crate::store::chas(ent(tmid, c).components@, k));
                        } else {
                            if has_entity(tprev, h) {
                                assert(ent(tmid, h) == ent(tprev, h));
                            }
                        }
                    }
                    assert(comp_data(tcur, h, k) == comp_data(tmid, h, k) && comp_changed(
                        tcur,
                        h,
                        k,
                    ) == comp_changed(tmid, h, k)) by {
                        if h == entity {
                            assert(crate::store::same_but_subs(ent(tmid, entity), ent(tcur, entity)));
                        } else if h == c {
                            assert(ent(tcur, c) == (crate::store::EntityRecord {
                                parent: Some(SubObjectParent { container: entity, sub_id: d }),
                                ..ent(tmid, c)
                            }));
                        } else {
                            if has_entity(tmid, h) {
                                assert(ent(tcur, h) == ent(tmid, h));
                            }
                        }
                    }
                }
                assert(stage_of(tcur, entity) == stage_of(tmid, entity)) by {
                    assert(crate::store::same_but_subs(ent(tmid, entity), ent(tcur, entity)));
                }
                assert forall|h: u64| has_entity(tcur, h) && h < next0 implies has_entity(t0, h) by {
                    assert(has_entity(tmid, h) || h == c);
                }
            }
            d = d + 1;
        }
    }
}

/// Builds a structure on the client: chunks as on the server, and the
/// structure gated behind the loading pipeline until its data commits.
#[derive(Debug, Default)]
pub struct ClientStructureBuilder {
    structure_builder: StructureBuilder,
}

impl ClientStructureBuilder {
    /// As [`StructureBuilder::insert_structure`], and additionally moves
    /// the structure from `Stub` to `AwaitingData` with one data unit
    /// outstanding, so it only becomes `Ready` once its data has arrived
    /// and the barrier committed.
    pub fn insert_structure(&self, store: &mut EntityStore, entity: u64, chunk_count: u32)
        requires
            old(store).wf(),
            has_entity(old(store)@, entity),
            ent(old(store)@, entity).sub_objects@.len() == 0,
            stage_of(old(store)@, entity) == LoadStage::Stub,
            (old(store).spec_next_handle() as int + chunk_count as int) < (u64::MAX as int),
        ensures
            final(store).wf(),
            forall|h: u64| has_entity(old(store)@, h) ==> has_entity(final(store)@, h),
            has_entity(final(store)@, entity),
            forall|d: u32|
                d < chunk_count ==> (#[trigger] sub_lookup(final(store)@, entity, d) matches Some(c)
                    && !has_entity(old(store)@, c) && has_entity(final(store)@, c) && parent_link(
                    final(store)@,
                    c,
                ) == Some(SubObjectParent { container: entity, sub_id: d })),
            forall|d: u32| d >= chunk_count ==> sub_lookup(final(store)@, entity, d) is None,
            forall|h: u64, k: u16|
                comp_data(final(store)@, h, k) == comp_data(old(store)@, h, k) && comp_changed(
                    final(store)@,
                    h,
                    k,
                ) == comp_changed(old(store)@, h, k),
            stage_of(final(store)@, entity) == (LoadStage::AwaitingData {
                counter: ChunksNeedLoaded { amount_needed: 1 },
            }),
            final(store).removed() == old(store).removed(),
    {
        let ghost t0 = store@;
        self.structure_builder.insert_structure(store, entity, chunk_count);
        let ghost t1 = store@;
        store.begin_awaiting(entity, ChunksNeedLoaded { amount_needed: 1 });
        proof {
            let t2 = store@;
            assert forall|d: u32|
                d < chunk_count implies (#[trigger] sub_lookup(t2, entity, d) matches Some(c)
                && !has_entity(t0, c) && has_entity(t2, c) && parent_link(t2, c) == Some(
                SubObjectParent { container: entity, sub_id: d },
            )) by {
                assert(sub_lookup(t1, entity, d) matches Some(c) && !has_entity(t0, c)
                    && has_entity(t1, c) && parent_link(t1, c) == Some(
                    SubObjectParent { container: entity, sub_id: d },
                ));
                let c = sub_lookup(t1, entity, d).unwrap();
                assert(ent(t2, entity) == (crate::store::EntityRecord {
                    stage: LoadStage::AwaitingData { counter: ChunksNeedLoaded { amount_needed: 1 } },
                    ..ent(t1, entity)
                }));
                assert(sub_lookup(t2, entity, d) == sub_lookup(t1, entity, d));
                if c != entity {
                    assert(ent(t2, c) == ent(t1, c));
                }
            }
            assert forall|d: u32| d >= chunk_count implies sub_lookup(t2, entity, d) is None by {
                assert(ent(t2, entity).sub_objects == ent(t1, entity).sub_objects);
                assert(sub_lookup(t2, entity, d) == sub_lookup(t1, entity, d));
            }
            assert forall|h: u64, k: u16|
                comp_data(t2, h, k) == comp_data(t0, h, k) && comp_changed(t2, h, k)
                    == comp_changed(t0, h, k) by {
                if h == entity {
                    assert(ent(t2, entity).components == ent(t1, entity).components);
                } else {
                    if has_entity(t1, h) {
                        assert(ent(t2, h) == ent(t1, h));
                    }
                }
            }
        }
    }
}

} // verus!
