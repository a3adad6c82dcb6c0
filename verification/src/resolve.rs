//! Cross-process entity identity resolution.
//!
//! On the way out, a local handle becomes a [`WireEntityRef`]: the handle
//! itself for a top-level entity, or an indirect reference through its
//! container for a sub-object. On the way in, a wire reference becomes a
//! local handle again via the identity table — creating a fresh stub
//! entity on a first sighting only where the direction of travel permits
//! creation, and never for an indirect reference: a sub-object's
//! container must already exist. A resolution failure drops the single
//! message and is never fatal.

use vstd::prelude::*;

use crate::identity::{
    has_origin, locals_bounded, lemma_spec_local, row_maps, spec_local, EntityIdentityTable,
    IdentityRow,
};
use crate::loading::LoadStage;
use crate::store::{
    ent, ent_idx, has_entity, others_unchanged, parent_link, records_wf, sub_lookup, EntityRecord,
    EntityStore,
};
use crate::wire::WireEntityRef;

verus! {

/// Why a wire reference did not resolve. Transient by design: the object
/// may simply not exist here yet, or may just have despawned.
#[derive(Debug, Clone, Copy, PartialEq, Eq, Structural)]
pub enum ResolveError {
    /// A direct reference whose origin has no identity row here.
    UnknownOrigin,
    /// An indirect reference whose container resolved but whose sub-id is
    /// not in the container's registry (or the container entity is gone).
    SubObjectMissing,
}

/// A sub-object's parent is an older entity, so following parent links
/// descends in handle order.
pub proof fn lemma_parent_smaller(t: Seq<EntityRecord>, h: u64)
    requires
        records_wf(t),
        has_entity(t, h),
        parent_link(t, h) is Some,
    ensures
        parent_link(t, h).unwrap().container < h,
{
    let i = ent_idx(t, h);
    assert(0 <= i < t.len() && t[i].handle == h);
    assert(t[i].parent matches Some(p) ==> p.container < t[i].handle);
}

/// The wire reference under which this entity travels: itself for a
/// top-level entity, or its container's reference plus its sub-id.
/// `None` when the handle (or a container in its chain) is not live.
pub open spec fn resolve_send(t: Seq<EntityRecord>, h: u64) -> Option<WireEntityRef>
    decreases h,
        when records_wf(t)
{
    if !has_entity(t, h) {
        None
    } else {
        match ent(t, h).parent {
            None => Some(WireEntityRef::Direct { origin_handle: h }),
            Some(p) => {
                if p.container < h {
                    match resolve_send(t, p.container) {
                        Some(c) => Some(
                            WireEntityRef::Indirect { container: Box::new(c), sub_id: p.sub_id },
                        ),
                        None => None,
                    }
                } else {
                    None
                }
            },
        }
    }
}

/// Resolves a local handle to the wire reference it travels under.
pub fn resolve_for_send(store: &EntityStore, h: u64) -> (r: Option<WireEntityRef>)
    requires
        store.wf(),
    ensures
        r == resolve_send(store@, h),
    decreases h,
{
    if !store.has(h) {
        return None;
    }
    match store.parent_of_entity(h) {
        None => Some(WireEntityRef::Direct { origin_handle: h }),
        Some(p) => {
            proof {
                lemma_parent_smaller(store@, h);
            }
            match resolve_for_send(store, p.container) {
                Some(c) => Some(WireEntityRef::Indirect { container: Box::new(c), sub_id: p.sub_id }),
                None => None,
            }
        },
    }
}

/// Resolution without creation: the identity table for a direct
/// reference, the container's sub-object registry for an indirect one.
pub open spec fn resolve_ro(
    ts: Seq<EntityRecord>,
    tt: Seq<IdentityRow>,
    wr: WireEntityRef,
) -> Result<u64, ResolveError>
    decreases wr,
{
    match wr {
        WireEntityRef::Direct { origin_handle } => {
            if has_origin(tt, origin_handle) {
                Ok(spec_local(tt, origin_handle))
            } else {
                Err(ResolveError::UnknownOrigin)
            }
        },
        WireEntityRef::Indirect { container, sub_id } => {
            match resolve_ro(ts, tt, *container) {
                Ok(c) => match sub_lookup(ts, c, sub_id) {
                    Some(l) => Ok(l),
                    None => Err(ResolveError::SubObjectMissing),
                },
                Err(e) => Err(e),
            }
        },
    }
}

/// Resolves a wire reference without ever creating anything.
pub fn resolve_no_create(
    store: &EntityStore,
    table: &EntityIdentityTable,
    wire_ref: &WireEntityRef,
) -> (r: Result<u64, ResolveError>)
    requires
        store.wf(),
        table.wf(),
    ensures
        r == resolve_ro(store@, table@, *wire_ref),
    decreases *wire_ref,
{
    match wire_ref {
        WireEntityRef::Direct { origin_handle } => {
            match table.local_of(*origin_handle) {
                Some(l) => {
                    proof {
                        lemma_spec_local(table@, *origin_handle, l);
                    }
                    Ok(l)
                },
                None => Err(ResolveError::UnknownOrigin),
            }
        },
        WireEntityRef::Indirect { container, sub_id } => {
            match resolve_no_create(store, table, container) {
                Ok(c) => match store.lookup_sub_object(c, *sub_id) {
                    Some(l) => Ok(l),
                    None => Err(ResolveError::SubObjectMissing),
                },
                Err(e) => Err(e),
            }
        },
    }
}

/// Whether this wire reference is a direct one.
pub open spec fn is_direct(wr: WireEntityRef) -> bool {
    wr matches WireEntityRef::Direct { .. }
}

/// The origin handle of a direct wire reference.
pub open spec fn direct_origin(wr: WireEntityRef) -> u64 {
    match wr {
        WireEntityRef::Direct { origin_handle } => origin_handle,
        WireEntityRef::Indirect { .. } => 0,
    }
}

/// Resolves a wire reference to a local handle. A direct reference on a
/// first sighting creates a fresh local stub entity and inserts its
/// identity row — but only if this direction of travel permits creation.
/// An indirect reference never creates anything, whatever `allow_create`
/// says: its container must already exist.
pub fn resolve_for_receive(
    store: &mut EntityStore,
    table: &mut EntityIdentityTable,
    wire_ref: &WireEntityRef,
    allow_create: bool,
) -> (r: Result<u64, ResolveError>)
    requires
        old(store).wf(),
        old(table).wf(),
        old(store).spec_next_handle() < u64::MAX,
        locals_bounded(old(table)@, old(store).spec_next_handle()),
    ensures
        final(store).wf(),
        final(table).wf(),
        locals_bounded(final(table)@, final(store).spec_next_handle()),
        final(store).removed() == old(store).removed(),
        // An indirect reference, or any resolution without creation
        // rights, changes nothing and resolves read-only.
        !(is_direct(*wire_ref) && allow_create && !has_origin(old(table)@, direct_origin(*wire_ref)))
            ==> final(store)@ == old(store)@ && final(table)@ == old(table)@
                && final(store).spec_next_handle() == old(store).spec_next_handle()
                && r == resolve_ro(old(store)@, old(table)@, *wire_ref),
        // A direct first sighting with creation rights: a fresh stub and
        // its identity row.
        (is_direct(*wire_ref) && allow_create && !has_origin(old(table)@, direct_origin(*wire_ref)))
            ==> {
            let l = old(store).spec_next_handle();
            &&& r == Ok::<u64, ResolveError>(l)
            &&& !has_entity(old(store)@, l)
            &&& has_entity(final(store)@, l)
            &&& forall|h2: u64|
                has_entity(final(store)@, h2) <==> (has_entity(old(store)@, h2) || h2 == l)
            &&& others_unchanged(old(store)@, final(store)@, l)
            &&& ent(final(store)@, l).components@.len() == 0
            &&& ent(final(store)@, l).sub_objects@.len() == 0
            &&& ent(final(store)@, l).parent is None
            &&& ent(final(store)@, l).stage == LoadStage::Stub
            &&& ent(final(store)@, l).no_send is None
            &&& ent(final(store)@, l).pending@.len() == 0
            &&& final(store).spec_next_handle() == l + 1
            &&& final(table)@ == old(table)@.push(
                IdentityRow { origin_handle: direct_origin(*wire_ref), local_handle: l },
            )
            &&& row_maps(final(table)@, direct_origin(*wire_ref), l)
        },
{
    match wire_ref {
        WireEntityRef::Direct { origin_handle } => {
            match table.local_of(*origin_handle) {
                Some(l) => {
                    proof {
                        lemma_spec_local(table@, *origin_handle, l);
                    }
                    Ok(l)
                },
                None => {
                    if allow_create {
                        let l = store.create_entity();
                        proof {
                            if crate::identity::has_local(table@, l) {
                                let i = choose|i: int|
                                    0 <= i < table@.len() && (#[trigger] table@[i]).local_handle
                                        == l;
                                assert(table@[i].local_handle < l);
                            }
                        }
                        table.insert(*origin_handle, l);
                        Ok(l)
                    } else {
                        Err(ResolveError::UnknownOrigin)
                    }
                },
            }
        },
        WireEntityRef::Indirect { .. } => resolve_no_create(store, table, wire_ref),
    }
}


/// Resolution on the authoritative side, whose wire references carry its
/// own handles: a direct reference is the handle itself, an indirect one
/// goes through the container's sub-object registry.
pub open spec fn resolve_local(ts: Seq<EntityRecord>, wr: WireEntityRef) -> Option<u64>
    decreases wr,
{
    match wr {
        WireEntityRef::Direct { origin_handle } => {
            if has_entity(ts, origin_handle) {
                Some(origin_handle)
            } else {
                None
            }
        },
        WireEntityRef::Indirect { container, sub_id } => {
            match resolve_local(ts, *container) {
                Some(c) => sub_lookup(ts, c, sub_id),
                None => None,
            }
        },
    }
}

/// The outermost direct origin of a wire reference: the top-level entity
/// that owns whatever the reference addresses. Authority checks are made
/// against it.
pub open spec fn root_origin(wr: WireEntityRef) -> u64
    decreases wr,
{
    match wr {
        WireEntityRef::Direct { origin_handle } => origin_handle,
        WireEntityRef::Indirect { container, .. } => root_origin(*container),
    }
}

/// Resolves a wire reference against the authoritative side's own store.
pub fn resolve_local_handle(store: &EntityStore, wire_ref: &WireEntityRef) -> (r: Option<u64>)
    requires
        store.wf(),
    ensures
        r == resolve_local(store@, *wire_ref),
    decreases *wire_ref,
{
    match wire_ref {
        WireEntityRef::Direct { origin_handle } => {
            if store.has(*origin_handle) {
                Some(*origin_handle)
            } else {
                None
            }
        },
        WireEntityRef::Indirect { container, sub_id } => {
            match resolve_local_handle(store, container) {
                Some(c) => store.lookup_sub_object(c, *sub_id),
                None => None,
            }
        },
    }
}

/// The outermost direct origin of a wire reference.
pub fn wire_root(wire_ref: &WireEntityRef) -> (r: u64)
    ensures
        r == root_origin(*wire_ref),
    decreases *wire_ref,
{
    match wire_ref {
        WireEntityRef::Direct { origin_handle } => *origin_handle,
        WireEntityRef::Indirect { container, .. } => wire_root(container),
    }
}

} // verus!
