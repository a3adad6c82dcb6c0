//! The process-local entity store the replication pipeline runs against.
//!
//! It realizes the narrow interface the protocol needs from an entity
//! store: create and despawn process-local handles, attach, detach and
//! query per-kind component values (held as the bytes the component's own
//! serializer produced), track which components changed since the sender
//! last drained them, log detached components, keep each container's
//! sub-object registry, and carry each loadable entity's loading stage.
//!
//! Handles are process-local and never travel: the resolver maps them to
//! and from wire references.

use vstd::prelude::*;

use crate::channel::NoSendEntity;
use crate::loading::LoadStage;
use crate::persistence::NeedsLoaded;

verus! {

/// One component held by an entity: its registered kind, its serialized
/// value, and whether it changed since the sender last looked.
#[derive(Debug)]
pub struct ComponentEntry {
    /// The session-stable kind of the component.
    pub kind: u16,
    /// The component value, as its own serializer wrote it.
    pub data: Vec<u8>,
    /// Whether this value changed since the last sender drain.
    pub changed: bool,
}

/// One row of a container's sub-object registry.
#[derive(Debug, Clone, Copy, PartialEq, Eq, Structural)]
pub struct SubObjectEntry {
    /// The sub-object's identifier inside its container.
    pub sub_id: u32,
    /// The local handle of the sub-object.
    pub child: u64,
}

/// A sub-object's link back to its container.
#[derive(Debug, Clone, Copy, PartialEq, Eq, Structural)]
pub struct SubObjectParent {
    /// The container's local handle.
    pub container: u64,
    /// This sub-object's identifier inside the container.
    pub sub_id: u32,
}

/// A component detached this tick, waiting to be announced.
#[derive(Debug, Clone, Copy, PartialEq, Eq, Structural)]
pub struct RemovedEntry {
    /// The entity the component was detached from.
    pub entity: u64,
    /// The kind of the detached component.
    pub kind: u16,
}

/// One live entity and everything the replication core tracks about it.
#[derive(Debug)]
pub struct EntityRecord {
    /// The process-local handle.
    pub handle: u64,
    /// The components attached to the entity, one per kind.
    pub components: Vec<ComponentEntry>,
    /// Component insertions queued while the entity loads; committed at
    /// the loading barrier.
    pub pending: Vec<ComponentEntry>,
    /// The registry of sub-objects this entity contains, one per sub-id.
    pub sub_objects: Vec<SubObjectEntry>,
    /// Set when this entity is itself a sub-object of a container.
    pub parent: Option<SubObjectParent>,
    /// Where the entity stands in the staged loading pipeline.
    pub stage: LoadStage,
    /// Set to keep the entity out of replication entirely.
    pub no_send: Option<NoSendEntity>,
    /// Set while the entity is being loaded from saved data.
    pub needs_loaded: Option<NeedsLoaded>,
}

// Component sequences, keyed by kind.
/// Some entry of `c` carries this kind.
pub open spec fn chas(c: Seq<ComponentEntry>, kind: u16) -> bool {
    exists|i: int| 0 <= i < c.len() && (#[trigger] c[i]).kind == kind
}

/// The index of the entry of this kind.
pub open spec fn cidx(c: Seq<ComponentEntry>, kind: u16) -> int {
    choose|i: int| 0 <= i < c.len() && (#[trigger] c[i]).kind == kind
}

/// The serialized value of the component of this kind, if attached.
pub open spec fn cdata(c: Seq<ComponentEntry>, kind: u16) -> Option<Seq<u8>> {
    if chas(c, kind) {
        Some(c[cidx(c, kind)].data@)
    } else {
        None
    }
}

/// Whether the component of this kind is attached and marked changed.
pub open spec fn cchanged(c: Seq<ComponentEntry>, kind: u16) -> bool {
    chas(c, kind) && c[cidx(c, kind)].changed
}

/// At most one entry per kind.
pub open spec fn comps_wf(c: Seq<ComponentEntry>) -> bool {
    forall|i: int, j: int|
        0 <= i < j < c.len() ==> (#[trigger] c[i]).kind != (#[trigger] c[j]).kind
}

/// The entry at a unique-kind index is the one every accessor sees.
pub proof fn lemma_comp_at(c: Seq<ComponentEntry>, i: int)
    requires
        comps_wf(c),
        0 <= i < c.len(),
    ensures
        chas(c, c[i].kind),
        cidx(c, c[i].kind) == i,
        cdata(c, c[i].kind) == Some(c[i].data@),
        cchanged(c, c[i].kind) == c[i].changed,
{
    assert(chas(c, c[i].kind));
    let j = cidx(c, c[i].kind);
    if i != j {
        if i < j {
            assert(c[i].kind != c[j].kind);
        } else {
            assert(c[j].kind != c[i].kind);
        }
    }
}

/// Replacing the entry of a kind in the swap-remove-then-push way leaves
/// every other kind exactly as it was.
pub proof fn lemma_comp_replace(
    c0: Seq<ComponentEntry>,
    c1: Seq<ComponentEntry>,
    j: int,
    e: ComponentEntry,
)
    requires
        comps_wf(c0),
        0 <= j < c0.len(),
        e.kind == c0[j].kind,
        c1 == c0.update(j, c0[c0.len() - 1]).drop_last().push(e),
    ensures
        comps_wf(c1),
        c1.len() == c0.len(),
        forall|k: u16| chas(c1, k) <==> chas(c0, k),
        cdata(c1, e.kind) == Some(e.data@),
        cchanged(c1, e.kind) == e.changed,
        forall|k: u16| k != e.kind ==> cdata(c1, k) == cdata(c0, k),
        forall|k: u16| k != e.kind ==> cchanged(c1, k) == cchanged(c0, k),
{
    let n = c0.len() as int;
    assert(c1.len() == n);
    assert forall|i: int| 0 <= i < n implies #[trigger] c1[i] == (if i == n - 1 {
        e
    } else if i == j {
        c0[n - 1]
    } else {
        c0[i]
    }) by {}
    assert forall|i: int, k: int| 0 <= i < k < n implies (#[trigger] c1[i]).kind
        != (#[trigger] c1[k]).kind by {
        let ki = if i == n - 1 {
            j
        } else if i == j {
            n - 1
        } else {
            i
        };
        let kk = if k == n - 1 {
            j
        } else if k == j {
            n - 1
        } else {
            k
        };
        assert(c1[i].kind == c0[ki].kind);
        assert(c1[k].kind == c0[kk].kind);
        assert(ki != kk);
        if ki < kk {
            assert(c0[ki].kind != c0[kk].kind);
        } else {
            assert(c0[kk].kind != c0[ki].kind);
        }
    }
    assert forall|k: u16| chas(c1, k) implies chas(c0, k) by {
        let i = choose|i: int| 0 <= i < c1.len() && (#[trigger] c1[i]).kind == k;
        if i == n - 1 {
            assert(c0[j].kind == k);
        } else if i == j {
            assert(c0[n - 1].kind == k);
        } else {
            assert(c0[i].kind == k);
        }
    }
    assert forall|k: u16| chas(c0, k) implies chas(c1, k) by {
        let i = choose|i: int| 0 <= i < c0.len() && (#[trigger] c0[i]).kind == k;
        if i == j {
            assert(c1[n - 1].kind == k);
        } else if i == n - 1 {
            if j == n - 1 {
                assert(c1[n - 1].kind == k);
            } else {
                assert(c1[j].kind == k);
            }
        } else {
            assert(c1[i].kind == k);
        }
    }
    lemma_comp_at(c1, n - 1);
    assert forall|k: u16| k != e.kind && chas(c0, k) implies cdata(c1, k) == cdata(c0, k)
        && cchanged(c1, k) == cchanged(c0, k) by {
        let i = cidx(c0, k);
        assert(0 <= i < n && c0[i].kind == k);
        lemma_comp_at(c0, i);
        assert(i != j);
        if i == n - 1 {
            assert(c1[j] == c0[i]);
            lemma_comp_at(c1, j);
        } else {
            assert(c1[i] == c0[i]);
            lemma_comp_at(c1, i);
        }
    }
}

/// Appending an entry of a fresh kind leaves every other kind exactly as
/// it was.
pub proof fn lemma_comp_push(c0: Seq<ComponentEntry>, c1: Seq<ComponentEntry>, e: ComponentEntry)
    requires
        comps_wf(c0),
        !chas(c0, e.kind),
        c1 == c0.push(e),
    ensures
        comps_wf(c1),
        c1.len() == c0.len() + 1,
        forall|k: u16| chas(c1, k) <==> (chas(c0, k) || k == e.kind),
        cdata(c1, e.kind) == Some(e.data@),
        cchanged(c1, e.kind) == e.changed,
        forall|k: u16| k != e.kind ==> cdata(c1, k) == cdata(c0, k),
        forall|k: u16| k != e.kind ==> cchanged(c1, k) == cchanged(c0, k),
{
    let n = c0.len() as int;
    assert forall|i: int, k: int| 0 <= i < k < c1.len() implies (#[trigger] c1[i]).kind
        != (#[trigger] c1[k]).kind by {
        if k == n {
            assert(c1[i] == c0[i]);
            assert(chas(c0, c0[i].kind));
        } else {
            assert(c1[i] == c0[i] && c1[k] == c0[k]);
        }
    }
    assert forall|k: u16| chas(c1, k) implies (chas(c0, k) || k == e.kind) by {
        let i = choose|i: int| 0 <= i < c1.len() && (#[trigger] c1[i]).kind == k;
        if i < n {
            assert(c0[i].kind == k);
        }
    }
    assert forall|k: u16| chas(c0, k) implies chas(c1, k) by {
        let i = choose|i: int| 0 <= i < c0.len() && (#[trigger] c0[i]).kind == k;
        assert(c1[i].kind == k);
    }
    lemma_comp_at(c1, n);
    assert forall|k: u16| k != e.kind && chas(c0, k) implies cdata(c1, k) == cdata(c0, k)
        && cchanged(c1, k) == cchanged(c0, k) by {
        let i = cidx(c0, k);
        lemma_comp_at(c0, i);
        assert(c1[i] == c0[i]);
        lemma_comp_at(c1, i);
    }
}

/// Removing the entry of a kind in the swap-remove way leaves every other
/// kind exactly as it was.
pub proof fn lemma_comp_remove(c0: Seq<ComponentEntry>, c1: Seq<ComponentEntry>, j: int)
    requires
        comps_wf(c0),
        0 <= j < c0.len(),
        c1 == c0.update(j, c0[c0.len() - 1]).drop_last(),
    ensures
        comps_wf(c1),
        c1.len() == c0.len() - 1,
        forall|k: u16| chas(c1, k) <==> (chas(c0, k) && k != c0[j].kind),
        forall|k: u16| k != c0[j].kind ==> cdata(c1, k) == cdata(c0, k),
        forall|k: u16| k != c0[j].kind ==> cchanged(c1, k) == cchanged(c0, k),
{
    let n = c0.len() as int;
    let gone = c0[j].kind;
    assert forall|i: int| 0 <= i < n - 1 implies #[trigger] c1[i] == (if i == j {
        c0[n - 1]
    } else {
        c0[i]
    }) by {}
    assert forall|i: int, k: int| 0 <= i < k < c1.len() implies (#[trigger] c1[i]).kind
        != (#[trigger] c1[k]).kind by {
        let ki = if i == j {
            n - 1
        } else {
            i
        };
        let kk = if k == j {
            n - 1
        } else {
            k
        };
        assert(c1[i].kind == c0[ki].kind && c1[k].kind == c0[kk].kind);
        assert(ki != kk);
        if ki < kk {
            assert(c0[ki].kind != c0[kk].kind);
        } else {
            assert(c0[kk].kind != c0[ki].kind);
        }
    }
    assert forall|k: u16| chas(c1, k) implies (chas(c0, k) && k != gone) by {
        let i = choose|i: int| 0 <= i < c1.len() && (#[trigger] c1[i]).kind == k;
        let ki = if i == j {
            n - 1
        } else {
            i
        };
        assert(c0[ki].kind == k);
        if ki != j {
            if ki < j {
                assert(c0[ki].kind != c0[j].kind);
            } else {
                assert(c0[j].kind != c0[ki].kind);
            }
        }
    }
    assert forall|k: u16| chas(c0, k) && k != gone implies chas(c1, k) by {
        let i = choose|i: int| 0 <= i < c0.len() && (#[trigger] c0[i]).kind == k;
        assert(i != j);
        if i == n - 1 {
            assert(j < n - 1);
            assert(c1[j].kind == k);
        } else {
            assert(c1[i].kind == k);
        }
    }
    assert forall|k: u16| k != gone && chas(c0, k) implies cdata(c1, k) == cdata(c0, k)
        && cchanged(c1, k) == cchanged(c0, k) by {
        let i = cidx(c0, k);
        lemma_comp_at(c0, i);
        assert(i != j);
        if i == n - 1 {
            assert(c1[j] == c0[i]);
            lemma_comp_at(c1, j);
        } else {
            assert(c1[i] == c0[i]);
            lemma_comp_at(c1, i);
        }
    }
}

// Sub-object registries, keyed by sub-id.
/// Some row of `s` carries this sub-id.
pub open spec fn shas(s: Seq<SubObjectEntry>, sub_id: u32) -> bool {
    exists|i: int| 0 <= i < s.len() && (#[trigger] s[i]).sub_id == sub_id
}

/// The index of the row with this sub-id.
pub open spec fn sidx(s: Seq<SubObjectEntry>, sub_id: u32) -> int {
    choose|i: int| 0 <= i < s.len() && (#[trigger] s[i]).sub_id == sub_id
}

/// The sub-object registered under this sub-id, if any.
pub open spec fn schild(s: Seq<SubObjectEntry>, sub_id: u32) -> Option<u64> {
    if shas(s, sub_id) {
        Some(s[sidx(s, sub_id)].child)
    } else {
        None
    }
}

/// At most one row per sub-id.
pub open spec fn subs_wf(s: Seq<SubObjectEntry>) -> bool {
    forall|i: int, j: int|
        0 <= i < j < s.len() ==> (#[trigger] s[i]).sub_id != (#[trigger] s[j]).sub_id
}

/// The row at a unique-sub-id index is the one `schild` sees.
pub proof fn lemma_sub_at(s: Seq<SubObjectEntry>, i: int)
    requires
        subs_wf(s),
        0 <= i < s.len(),
    ensures
        shas(s, s[i].sub_id),
        sidx(s, s[i].sub_id) == i,
        schild(s, s[i].sub_id) == Some(s[i].child),
{
    assert(shas(s, s[i].sub_id));
    let j = sidx(s, s[i].sub_id);
    if i != j {
        if i < j {
            assert(s[i].sub_id != s[j].sub_id);
        } else {
            assert(s[j].sub_id != s[i].sub_id);
        }
    }
}

/// Appending a row with a fresh sub-id leaves every other sub-id as it was.
pub proof fn lemma_sub_push(s0: Seq<SubObjectEntry>, s1: Seq<SubObjectEntry>, e: SubObjectEntry)
    requires
        subs_wf(s0),
        !shas(s0, e.sub_id),
        s1 == s0.push(e),
    ensures
        subs_wf(s1),
        forall|d: u32| shas(s1, d) <==> (shas(s0, d) || d == e.sub_id),
        schild(s1, e.sub_id) == Some(e.child),
        forall|d: u32| d != e.sub_id ==> schild(s1, d) == schild(s0, d),
{
    let n = s0.len() as int;
    assert forall|i: int, k: int| 0 <= i < k < s1.len() implies (#[trigger] s1[i]).sub_id
        != (#[trigger] s1[k]).sub_id by {
        if k == n {
            assert(s1[i] == s0[i]);
            assert(shas(s0, s0[i].sub_id));
        } else {
            assert(s1[i] == s0[i] && s1[k] == s0[k]);
        }
    }
    assert forall|d: u32| shas(s1, d) implies (shas(s0, d) || d == e.sub_id) by {
        let i = choose|i: int| 0 <= i < s1.len() && (#[trigger] s1[i]).sub_id == d;
        if i < n {
            assert(s0[i].sub_id == d);
        }
    }
    assert forall|d: u32| shas(s0, d) implies shas(s1, d) by {
        let i = choose|i: int| 0 <= i < s0.len() && (#[trigger] s0[i]).sub_id == d;
        assert(s1[i].sub_id == d);
    }
    lemma_sub_at(s1, n);
    assert forall|d: u32| d != e.sub_id && shas(s0, d) implies schild(s1, d) == schild(s0, d) by {
        let i = sidx(s0, d);
        lemma_sub_at(s0, i);
        assert(s1[i] == s0[i]);
        lemma_sub_at(s1, i);
    }
}

// Entity sequences, keyed by handle.
/// Some record of `t` carries this handle.
pub open spec fn has_entity(t: Seq<EntityRecord>, h: u64) -> bool {
    exists|i: int| 0 <= i < t.len() && (#[trigger] t[i]).handle == h
}

/// The index of the record with this handle.
pub open spec fn ent_idx(t: Seq<EntityRecord>, h: u64) -> int {
    choose|i: int| 0 <= i < t.len() && (#[trigger] t[i]).handle == h
}

/// The record of the entity with this handle.
pub open spec fn ent(t: Seq<EntityRecord>, h: u64) -> EntityRecord {
    t[ent_idx(t, h)]
}

/// At most one record per handle.
pub open spec fn handles_unique(t: Seq<EntityRecord>) -> bool {
    forall|i: int, j: int|
        0 <= i < j < t.len() ==> (#[trigger] t[i]).handle != (#[trigger] t[j]).handle
}

/// Every record is internally well-formed: unique component kinds, unique
/// pending kinds, unique sub-ids, and a parent link only to an older
/// (smaller) handle, which keeps container chains acyclic.
pub open spec fn records_wf(t: Seq<EntityRecord>) -> bool {
    &&& handles_unique(t)
    &&& forall|i: int|
        0 <= i < t.len() ==> comps_wf((#[trigger] t[i]).components@) && comps_wf(t[i].pending@)
            && subs_wf(t[i].sub_objects@) && (t[i].parent matches Some(p) ==> p.container
            < t[i].handle)
}

/// The record at a unique-handle index is the one `ent` sees.
pub proof fn lemma_ent_at(t: Seq<EntityRecord>, i: int)
    requires
        handles_unique(t),
        0 <= i < t.len(),
    ensures
        has_entity(t, t[i].handle),
        ent_idx(t, t[i].handle) == i,
        ent(t, t[i].handle) == t[i],
{
    assert(has_entity(t, t[i].handle));
    let j = ent_idx(t, t[i].handle);
    if i != j {
        if i < j {
            assert(t[i].handle != t[j].handle);
        } else {
            assert(t[j].handle != t[i].handle);
        }
    }
}

/// Replacing the record of a handle in the swap-remove-then-push way
/// leaves every other entity exactly as it was.
pub proof fn lemma_ent_replace(
    t0: Seq<EntityRecord>,
    t1: Seq<EntityRecord>,
    i: int,
    rec: EntityRecord,
)
    requires
        handles_unique(t0),
        0 <= i < t0.len(),
        rec.handle == t0[i].handle,
        t1 == t0.update(i, t0[t0.len() - 1]).drop_last().push(rec),
    ensures
        handles_unique(t1),
        t1.len() == t0.len(),
        forall|h: u64| has_entity(t1, h) <==> has_entity(t0, h),
        ent(t1, rec.handle) == rec,
        forall|h: u64| h != rec.handle && has_entity(t0, h) ==> ent(t1, h) == ent(t0, h),
{
    let n = t0.len() as int;
    assert forall|k: int| 0 <= k < n implies #[trigger] t1[k] == (if k == n - 1 {
        rec
    } else if k == i {
        t0[n - 1]
    } else {
        t0[k]
    }) by {}
    assert forall|a: int, b: int| 0 <= a < b < n implies (#[trigger] t1[a]).handle
        != (#[trigger] t1[b]).handle by {
        let ka = if a == n - 1 {
            i
        } else if a == i {
            n - 1
        } else {
            a
        };
        let kb = if b == n - 1 {
            i
        } else if b == i {
            n - 1
        } else {
            b
        };
        assert(t1[a].handle == t0[ka].handle || (a == n - 1 && t1[a].handle == rec.handle));
        assert(t1[a].handle == t0[ka].handle);
        assert(t1[b].handle == t0[kb].handle);
        assert(ka != kb);
        if ka < kb {
            assert(t0[ka].handle != t0[kb].handle);
        } else {
            assert(t0[kb].handle != t0[ka].handle);
        }
    }
    assert forall|h: u64| has_entity(t1, h) implies has_entity(t0, h) by {
        let k = choose|k: int| 0 <= k < t1.len() && (#[trigger] t1[k]).handle == h;
        if k == n - 1 {
            assert(t0[i].handle == h);
        } else if k == i {
            assert(t0[n - 1].handle == h);
        } else {
            assert(t0[k].handle == h);
        }
    }
    assert forall|h: u64| has_entity(t0, h) implies has_entity(t1, h) by {
        let k = choose|k: int| 0 <= k < t0.len() && (#[trigger] t0[k]).handle == h;
        if k == i {
            assert(t1[n - 1].handle == h);
        } else if k == n - 1 {
            if i == n - 1 {
                assert(t1[n - 1].handle == h);
            } else {
                assert(t1[i].handle == h);
            }
        } else {
            assert(t1[k].handle == h);
        }
    }
    lemma_ent_at(t1, n - 1);
    assert forall|h: u64| h != rec.handle && has_entity(t0, h) implies ent(t1, h) == ent(
        t0,
        h,
    ) by {
        let k = ent_idx(t0, h);
        assert(0 <= k < n && t0[k].handle == h);
        lemma_ent_at(t0, k);
        assert(k != i);
        if k == n - 1 {
            assert(t1[i] == t0[k]);
            lemma_ent_at(t1, i);
        } else {
            assert(t1[k] == t0[k]);
            lemma_ent_at(t1, k);
        }
    }
}

/// Appending a record with a fresh handle leaves every other entity
/// exactly as it was.
pub proof fn lemma_ent_push(t0: Seq<EntityRecord>, t1: Seq<EntityRecord>, rec: EntityRecord)
    requires
        handles_unique(t0),
        !has_entity(t0, rec.handle),
        t1 == t0.push(rec),
    ensures
        handles_unique(t1),
        t1.len() == t0.len() + 1,
        forall|h: u64| has_entity(t1, h) <==> (has_entity(t0, h) || h == rec.handle),
        ent(t1, rec.handle) == rec,
        forall|h: u64| h != rec.handle && has_entity(t0, h) ==> ent(t1, h) == ent(t0, h),
{
    let n = t0.len() as int;
    assert forall|a: int, b: int| 0 <= a < b < t1.len() implies (#[trigger] t1[a]).handle
        != (#[trigger] t1[b]).handle by {
        if b == n {
            assert(t1[a] == t0[a]);
            assert(has_entity(t0, t0[a].handle));
        } else {
            assert(t1[a] == t0[a] && t1[b] == t0[b]);
        }
    }
    assert forall|h: u64| has_entity(t1, h) implies (has_entity(t0, h) || h == rec.handle) by {
        let k = choose|k: int| 0 <= k < t1.len() && (#[trigger] t1[k]).handle == h;
        if k < n {
            assert(t0[k].handle == h);
        }
    }
    assert forall|h: u64| has_entity(t0, h) implies has_entity(t1, h) by {
        let k = choose|k: int| 0 <= k < t0.len() && (#[trigger] t0[k]).handle == h;
        assert(t1[k].handle == h);
    }
    lemma_ent_at(t1, n);
    assert forall|h: u64| h != rec.handle && has_entity(t0, h) implies ent(t1, h) == ent(
        t0,
        h,
    ) by {
        let k = ent_idx(t0, h);
        lemma_ent_at(t0, k);
        assert(t1[k] == t0[k]);
        lemma_ent_at(t1, k);
    }
}

/// Removing the record of a handle in the swap-remove way leaves every
/// other entity exactly as it was.
pub proof fn lemma_ent_remove(t0: Seq<EntityRecord>, t1: Seq<EntityRecord>, i: int)
    requires
        handles_unique(t0),
        0 <= i < t0.len(),
        t1 == t0.update(i, t0[t0.len() - 1]).drop_last(),
    ensures
        handles_unique(t1),
        t1.len() == t0.len() - 1,
        forall|h: u64| has_entity(t1, h) <==> (has_entity(t0, h) && h != t0[i].handle),
        forall|h: u64| h != t0[i].handle && has_entity(t1, h) ==> ent(t1, h) == ent(t0, h),
{
    let n = t0.len() as int;
    let gone = t0[i].handle;
    assert forall|k: int| 0 <= k < n - 1 implies #[trigger] t1[k] == (if k == i {
        t0[n - 1]
    } else {
        t0[k]
    }) by {}
    assert forall|a: int, b: int| 0 <= a < b < t1.len() implies (#[trigger] t1[a]).handle
        != (#[trigger] t1[b]).handle by {
        let ka = if a == i {
            n - 1
        } else {
            a
        };
        let kb = if b == i {
            n - 1
        } else {
            b
        };
        assert(t1[a].handle == t0[ka].handle && t1[b].handle == t0[kb].handle);
        assert(ka != kb);
        if ka < kb {
            assert(t0[ka].handle != t0[kb].handle);
        } else {
            assert(t0[kb].handle != t0[ka].handle);
        }
    }
    assert forall|h: u64| has_entity(t1, h) implies (has_entity(t0, h) && h != gone) by {
        let k = choose|k: int| 0 <= k < t1.len() && (#[trigger] t1[k]).handle == h;
        let kk = if k == i {
            n - 1
        } else {
            k
        };
        assert(t0[kk].handle == h);
        if kk != i {
            if kk < i {
                assert(t0[kk].handle != t0[i].handle);
            } else {
                assert(t0[i].handle != t0[kk].handle);
            }
        }
    }
    assert forall|h: u64| has_entity(t0, h) && h != gone implies has_entity(t1, h) by {
        let k = choose|k: int| 0 <= k < t0.len() && (#[trigger] t0[k]).handle == h;
        assert(k != i);
        if k == n - 1 {
            assert(i < n - 1);
            assert(t1[i].handle == h);
        } else {
            assert(t1[k].handle == h);
        }
    }
    assert forall|h: u64| h != gone && has_entity(t1, h) implies ent(t1, h) == ent(t0, h) by {
        let k = ent_idx(t0, h);
        lemma_ent_at(t0, k);
        assert(k != i);
        if k == n - 1 {
            assert(t1[i] == t0[k]);
            lemma_ent_at(t1, i);
        } else {
            assert(t1[k] == t0[k]);
            lemma_ent_at(t1, k);
        }
    }
}


/// The store-wide view of a component's serialized value.
pub open spec fn comp_data(t: Seq<EntityRecord>, h: u64, kind: u16) -> Option<Seq<u8>> {
    if has_entity(t, h) {
        cdata(ent(t, h).components@, kind)
    } else {
        None
    }
}

/// The store-wide view of a component's changed flag.
pub open spec fn comp_changed(t: Seq<EntityRecord>, h: u64, kind: u16) -> bool {
    has_entity(t, h) && cchanged(ent(t, h).components@, kind)
}

/// The store-wide view of a container's sub-object registry row.
pub open spec fn sub_lookup(t: Seq<EntityRecord>, h: u64, sub_id: u32) -> Option<u64> {
    if has_entity(t, h) {
        schild(ent(t, h).sub_objects@, sub_id)
    } else {
        None
    }
}

/// The store-wide view of an entity's link to its container.
pub open spec fn parent_link(t: Seq<EntityRecord>, h: u64) -> Option<SubObjectParent> {
    if has_entity(t, h) {
        ent(t, h).parent
    } else {
        None
    }
}

/// The store-wide view of an entity's loading stage; an absent entity
/// counts as a stub.
pub open spec fn stage_of(t: Seq<EntityRecord>, h: u64) -> LoadStage {
    if has_entity(t, h) {
        ent(t, h).stage
    } else {
        LoadStage::Stub
    }
}

/// Whether replication may send this entity at all.
pub open spec fn sendable(t: Seq<EntityRecord>, h: u64) -> bool {
    has_entity(t, h) && ent(t, h).no_send is None
}

/// The kind and bytes of one queued mutation.
pub open spec fn pitem(e: ComponentEntry) -> (u16, Seq<u8>) {
    (e.kind, e.data@)
}

/// The store-wide view of an entity's queued structural mutations.
pub open spec fn pending_view(t: Seq<EntityRecord>, h: u64) -> Seq<(u16, Seq<u8>)> {
    ent(t, h).pending@.map_values(|e: ComponentEntry| pitem(e))
}

/// Every entity other than `h` reads exactly as before.
pub open spec fn others_unchanged(t0: Seq<EntityRecord>, t1: Seq<EntityRecord>, h: u64) -> bool {
    forall|h2: u64|
        h2 != h ==> ((has_entity(t1, h2) <==> has_entity(t0, h2)) && (has_entity(t0, h2)
            ==> ent(t1, h2) == ent(t0, h2)))
}

/// The record changed in no field but its component table.
pub open spec fn same_but_components(r0: EntityRecord, r1: EntityRecord) -> bool {
    &&& r1.handle == r0.handle
    &&& r1.pending == r0.pending
    &&& r1.sub_objects == r0.sub_objects
    &&& r1.parent == r0.parent
    &&& r1.stage == r0.stage
    &&& r1.no_send == r0.no_send
    &&& r1.needs_loaded == r0.needs_loaded
}

/// The record changed in no field but its sub-object registry.
pub open spec fn same_but_subs(r0: EntityRecord, r1: EntityRecord) -> bool {
    &&& r1.handle == r0.handle
    &&& r1.components == r0.components
    &&& r1.pending == r0.pending
    &&& r1.parent == r0.parent
    &&& r1.stage == r0.stage
    &&& r1.no_send == r0.no_send
    &&& r1.needs_loaded == r0.needs_loaded
}

/// After a keyed replacement or push, well-formedness carries over from
/// the old records to the new, given that the one new record is itself
/// well-formed.
pub proof fn lemma_wf_carries(
    t0: Seq<EntityRecord>,
    t1: Seq<EntityRecord>,
    rec: EntityRecord,
    bound: u64,
)
    requires
        records_wf(t0),
        forall|i: int| 0 <= i < t0.len() ==> (#[trigger] t0[i]).handle < bound,
        handles_unique(t1),
        forall|h: u64| has_entity(t1, h) <==> (has_entity(t0, h) || h == rec.handle),
        forall|h: u64| h != rec.handle && has_entity(t0, h) ==> ent(t1, h) == ent(t0, h),
        ent(t1, rec.handle) == rec,
        comps_wf(rec.components@),
        comps_wf(rec.pending@),
        subs_wf(rec.sub_objects@),
        rec.parent matches Some(p) ==> p.container < rec.handle,
        rec.handle < bound,
    ensures
        records_wf(t1),
        forall|i: int| 0 <= i < t1.len() ==> (#[trigger] t1[i]).handle < bound,
{
    assert forall|x: int| 0 <= x < t1.len() implies comps_wf((#[trigger] t1[x]).components@)
        && comps_wf(t1[x].pending@) && subs_wf(t1[x].sub_objects@) && (t1[x].parent matches Some(p)
        ==> p.container < t1[x].handle) && t1[x].handle < bound by {
        lemma_ent_at(t1, x);
        let h2 = t1[x].handle;
        if h2 == rec.handle {
            assert(t1[x] == rec);
        } else {
            assert(has_entity(t1, h2));
            assert(has_entity(t0, h2));
            assert(t1[x] == ent(t0, h2));
            let y = ent_idx(t0, h2);
            assert(0 <= y < t0.len() && t0[y].handle == h2);
            assert(t1[x] == t0[y]);
        }
    }
}

/// After a keyed removal, well-formedness carries over.
pub proof fn lemma_wf_carries_remove(
    t0: Seq<EntityRecord>,
    t1: Seq<EntityRecord>,
    gone: u64,
    bound: u64,
)
    requires
        records_wf(t0),
        forall|i: int| 0 <= i < t0.len() ==> (#[trigger] t0[i]).handle < bound,
        handles_unique(t1),
        forall|h: u64| has_entity(t1, h) <==> (has_entity(t0, h) && h != gone),
        forall|h: u64| h != gone && has_entity(t1, h) ==> ent(t1, h) == ent(t0, h),
    ensures
        records_wf(t1),
        forall|i: int| 0 <= i < t1.len() ==> (#[trigger] t1[i]).handle < bound,
{
    assert forall|x: int| 0 <= x < t1.len() implies comps_wf((#[trigger] t1[x]).components@)
        && comps_wf(t1[x].pending@) && subs_wf(t1[x].sub_objects@) && (t1[x].parent matches Some(p)
        ==> p.container < t1[x].handle) && t1[x].handle < bound by {
        lemma_ent_at(t1, x);
        let h2 = t1[x].handle;
        assert(has_entity(t0, h2));
        assert(t1[x] == ent(t0, h2));
        let y = ent_idx(t0, h2);
        assert(0 <= y < t0.len() && t0[y].handle == h2);
        assert(t1[x] == t0[y]);
    }
}

/// Finds the index of the entry with this kind in a component table.
pub fn find_kind_index(c: &Vec<ComponentEntry>, kind: u16) -> (r: Option<usize>)
    ensures
        r matches Some(j) ==> j < c@.len() && c@[j as int].kind == kind,
        r is None ==> !chas(c@, kind),
{
    let n = c.len();
    let mut j: usize = 0;
    while j < n
        invariant
            j <= n,
            n == c@.len(),
            forall|k: int| 0 <= k < j ==> (#[trigger] c@[k]).kind != kind,
        decreases n - j,
    {
        if c[j].kind == kind {
            return Some(j);
        }
        j = j + 1;
    }
    None
}

/// The process-local entity store.
#[derive(Debug)]
pub struct EntityStore {
    entities: Vec<EntityRecord>,
    next_handle: u64,
    removed_log: Vec<RemovedEntry>,
}

impl View for EntityStore {
    type V = Seq<EntityRecord>;

    closed spec fn view(&self) -> Seq<EntityRecord> {
        self.entities@
    }
}

impl EntityStore {
    /// The handle the next created entity will get; all live handles are
    /// below it.
    pub closed spec fn spec_next_handle(&self) -> u64 {
        self.next_handle
    }

    /// The components detached since the sender last drained the log.
    pub closed spec fn removed(&self) -> Seq<RemovedEntry> {
        self.removed_log@
    }

    /// Handles are unique and below the allocator's next handle; every
    /// record is internally well-formed.
    pub open spec fn wf(&self) -> bool {
        &&& records_wf(self@)
        &&& forall|i: int|
            0 <= i < self@.len() ==> (#[trigger] self@[i]).handle < self.spec_next_handle()
    }

    /// An empty store.
    pub fn new() -> (r: EntityStore)
        ensures
            r.wf(),
            r@.len() == 0,
            r.removed().len() == 0,
            r.spec_next_handle() == 1,
    {
        EntityStore { entities: Vec::new(), next_handle: 1, removed_log: Vec::new() }
    }

    /// How many entities are live.
    pub fn len(&self) -> (r: usize)
        ensures
            r == self@.len(),
    {
        self.entities.len()
    }

    /// Finds the index of the record with this handle.
    pub(crate) fn find_index(&self, h: u64) -> (r: Option<usize>)
        requires
            self.wf(),
        ensures
            r matches Some(i) ==> i < self@.len() && self@[i as int].handle == h && has_entity(
                self@,
                h,
            ) && ent_idx(self@, h) == i && ent(self@, h) == self@[i as int],
            r is None ==> !has_entity(self@, h),
    {
        let n = self.entities.len();
        let mut i: usize = 0;
        while i < n
            invariant
                i <= n,
                n == self@.len(),
                self.wf(),
                forall|k: int| 0 <= k < i ==> (#[trigger] self@[k]).handle != h,
            decreases n - i,
        {
            if self.entities[i].handle == h {
                proof {
                    lemma_ent_at(self@, i as int);
                }
                return Some(i);
            }
            i = i + 1;
        }
        None
    }

    /// Whether an entity with this handle is live.
    pub fn has(&self, h: u64) -> (r: bool)
        requires
            self.wf(),
        ensures
            r == has_entity(self@, h),
    {
        self.find_index(h).is_some()
    }

    /// Creates a fresh stub entity and returns its handle. The new entity
    /// holds nothing and stands at the start of the loading pipeline.
    pub fn create_entity(&mut self) -> (h: u64)
        requires
            old(self).wf(),
            old(self).spec_next_handle() < u64::MAX,
        ensures
            final(self).wf(),
            h == old(self).spec_next_handle(),
            final(self).spec_next_handle() == h + 1,
            !has_entity(old(self)@, h),
            forall|h2: u64|
                has_entity(final(self)@, h2) <==> (has_entity(old(self)@, h2) || h2 == h),
            others_unchanged(old(self)@, final(self)@, h),
            ent(final(self)@, h).handle == h,
            ent(final(self)@, h).components@.len() == 0,
            ent(final(self)@, h).pending@.len() == 0,
            ent(final(self)@, h).sub_objects@.len() == 0,
            ent(final(self)@, h).parent is None,
            ent(final(self)@, h).stage == LoadStage::Stub,
            ent(final(self)@, h).no_send is None,
            ent(final(self)@, h).needs_loaded is None,
            final(self).removed() == old(self).removed(),
    {
        let ghost t0 = self@;
        let h = self.next_handle;
        let rec = EntityRecord {
            handle: h,
            components: Vec::new(),
            pending: Vec::new(),
            sub_objects: Vec::new(),
            parent: None,
            stage: LoadStage::Stub,
            no_send: None,
            needs_loaded: None,
        };
        proof {
            if has_entity(t0, h) {
                let k = choose|k: int| 0 <= k < t0.len() && (#[trigger] t0[k]).handle == h;
                assert(t0[k].handle < h);
            }
        }
        let ghost recg = rec;
        self.entities.push(rec);
        self.next_handle = h + 1;
        proof {
            lemma_ent_push(t0, self@, recg);
            lemma_wf_carries(t0, self@, recg, self.spec_next_handle());
        }
        h
    }

    /// Despawns the entity, dropping its record entirely. Detached
    /// components are not logged: a despawn is announced by its own
    /// notification, not by per-component removals.
    pub fn despawn_entity(&mut self, h: u64)
        requires
            old(self).wf(),
        ensures
            final(self).wf(),
            !has_entity(final(self)@, h),
            forall|h2: u64|
                has_entity(final(self)@, h2) <==> (has_entity(old(self)@, h2) && h2 != h),
            others_unchanged(old(self)@, final(self)@, h),
            final(self).removed() == old(self).removed(),
            final(self).spec_next_handle() == old(self).spec_next_handle(),
    {
        let ghost t0 = self@;
        match self.find_index(h) {
            Some(i) => {
                self.entities.swap_remove(i);
                proof {
                    lemma_ent_remove(t0, self@, i as int);
                    lemma_wf_carries_remove(t0, self@, h, self.spec_next_handle());
                }
            },
            None => {},
        }
    }

    /// The serialized value of the component of this kind on this entity.
    pub fn get_component(&self, h: u64, kind: u16) -> (r: Option<&Vec<u8>>)
        requires
            self.wf(),
        ensures
            r matches Some(v) ==> comp_data(self@, h, kind) == Some(v@),
            r is None ==> comp_data(self@, h, kind) is None,
    {
        match self.find_index(h) {
            Some(i) => {
                proof {
                    assert(comps_wf(self@[i as int].components@));
                }
                match find_kind_index(&self.entities[i].components, kind) {
                    Some(j) => {
                        proof {
                            lemma_comp_at(self@[i as int].components@, j as int);
                        }
                        Some(&self.entities[i].components[j].data)
                    },
                    None => None,
                }
            },
            None => None,
        }
    }

    /// Whether the component of this kind changed since the last drain.
    pub fn is_component_changed(&self, h: u64, kind: u16) -> (r: bool)
        requires
            self.wf(),
        ensures
            r == comp_changed(self@, h, kind),
    {
        match self.find_index(h) {
            Some(i) => {
                proof {
                    assert(comps_wf(self@[i as int].components@));
                }
                match find_kind_index(&self.entities[i].components, kind) {
                    Some(j) => {
                        proof {
                            lemma_comp_at(self@[i as int].components@, j as int);
                        }
                        self.entities[i].components[j].changed
                    },
                    None => false,
                }
            },
            None => false,
        }
    }

    /// Attaches or replaces the component of this kind with the given
    /// serialized value, marking it changed.
    pub fn upsert_component(&mut self, h: u64, kind: u16, data: Vec<u8>)
        requires
            old(self).wf(),
            has_entity(old(self)@, h),
        ensures
            final(self).wf(),
            comp_data(final(self)@, h, kind) == Some(data@),
            comp_changed(final(self)@, h, kind),
            forall|h2: u64, k2: u16|
                !(h2 == h && k2 == kind) ==> comp_data(final(self)@, h2, k2) == comp_data(
                    old(self)@,
                    h2,
                    k2,
                ) && comp_changed(final(self)@, h2, k2) == comp_changed(old(self)@, h2, k2),
            forall|h2: u64| has_entity(final(self)@, h2) <==> has_entity(old(self)@, h2),
            others_unchanged(old(self)@, final(self)@, h),
            same_but_components(ent(old(self)@, h), ent(final(self)@, h)),
            final(self).removed() == old(self).removed(),
            final(self).spec_next_handle() == old(self).spec_next_handle(),
    {
        let ghost t0 = self@;
        let i = match self.find_index(h) {
            Some(i) => i,
            None => {
                proof {
                    assert(false);
                }
                return ;
            },
        };
        let ghost r0 = t0[i as int];
        proof {
            assert(comps_wf(r0.components@));
            assert(comps_wf(r0.pending@));
            assert(subs_wf(r0.sub_objects@));
            assert(r0.handle < self.spec_next_handle());
        }
        let j_found = find_kind_index(&self.entities[i].components, kind);
        let mut rec = self.entities.swap_remove(i);
        let ghost c0 = rec.components@;
        let entry = ComponentEntry { kind, data, changed: true };
        let ghost e = entry;
        match j_found {
            Some(j) => {
                rec.components.swap_remove(j);
                rec.components.push(entry);
                proof {
                    lemma_comp_replace(c0, rec.components@, j as int, e);
                }
            },
            None => {
                rec.components.push(entry);
                proof {
                    lemma_comp_push(c0, rec.components@, e);
                }
            },
        }
        let ghost recg = rec;
        self.entities.push(rec);
        proof {
            lemma_ent_replace(t0, self@, i as int, recg);
            assert(ent(self@, h) == recg);
            assert(same_but_components(r0, recg));
            assert forall|h2: u64|
                has_entity(self@, h2) <==> (has_entity(t0, h2) || h2 == recg.handle) by {}
            lemma_wf_carries(t0, self@, recg, self.spec_next_handle());
            assert forall|h2: u64, k2: u16|
                !(h2 == h && k2 == kind) implies comp_data(self@, h2, k2) == comp_data(t0, h2, k2)
                && comp_changed(self@, h2, k2) == comp_changed(t0, h2, k2) by {
                if h2 == h {
                    assert(ent(t0, h) == r0);
                } else {
                    if has_entity(t0, h2) {
                        assert(ent(self@, h2) == ent(t0, h2));
                    }
                }
            }
        }
    }

    /// Clears the changed flag of the component of this kind, once the
    /// sender has drained it. No-op if the component is absent.
    pub fn clear_changed(&mut self, h: u64, kind: u16)
        requires
            old(self).wf(),
        ensures
            final(self).wf(),
            !comp_changed(final(self)@, h, kind),
            comp_data(final(self)@, h, kind) == comp_data(old(self)@, h, kind),
            forall|h2: u64, k2: u16|
                !(h2 == h && k2 == kind) ==> comp_data(final(self)@, h2, k2) == comp_data(
                    old(self)@,
                    h2,
                    k2,
                ) && comp_changed(final(self)@, h2, k2) == comp_changed(old(self)@, h2, k2),
            forall|h2: u64| has_entity(final(self)@, h2) <==> has_entity(old(self)@, h2),
            others_unchanged(old(self)@, final(self)@, h),
            has_entity(old(self)@, h) ==> same_but_components(ent(old(self)@, h), ent(final(self)@, h)),
            final(self).removed() == old(self).removed(),
            final(self).spec_next_handle() == old(self).spec_next_handle(),
    {
        let ghost t0 = self@;
        let i = match self.find_index(h) {
            Some(i) => i,
            None => {
                return ;
            },
        };
        let ghost r0 = t0[i as int];
        proof {
            assert(comps_wf(r0.components@));
            assert(comps_wf(r0.pending@));
            assert(subs_wf(r0.sub_objects@));
            assert(r0.handle < self.spec_next_handle());
        }
        let j = match find_kind_index(&self.entities[i].components, kind) {
            Some(j) => j,
            None => {
                return ;
            },
        };
        let mut rec = self.entities.swap_remove(i);
        let ghost c0 = rec.components@;
        proof {
            lemma_comp_at(c0, j as int);
        }
        let prior = rec.components.swap_remove(j);
        let entry = ComponentEntry { kind: prior.kind, data: prior.data, changed: false };
        let ghost e = entry;
        rec.components.push(entry);
        proof {
            lemma_comp_replace(c0, rec.components@, j as int, e);
        }
        let ghost recg = rec;
        self.entities.push(rec);
        proof {
            lemma_ent_replace(t0, self@, i as int, recg);
            assert(ent(self@, h) == recg);
            assert(same_but_components(r0, recg));
            assert forall|h2: u64|
                has_entity(self@, h2) <==> (has_entity(t0, h2) || h2 == recg.handle) by {}
            lemma_wf_carries(t0, self@, recg, self.spec_next_handle());
            assert(cdata(recg.components@, kind) == Some(c0[j as int].data@));
            assert(cdata(c0, kind) == Some(c0[j as int].data@));
            assert forall|h2: u64, k2: u16|
                !(h2 == h && k2 == kind) implies comp_data(self@, h2, k2) == comp_data(t0, h2, k2)
                && comp_changed(self@, h2, k2) == comp_changed(t0, h2, k2) by {
                if h2 == h {
                    assert(ent(t0, h) == r0);
                } else {
                    if has_entity(t0, h2) {
                        assert(ent(self@, h2) == ent(t0, h2));
                    }
                }
            }
        }
    }

    /// Takes the record at this index out, the last record moving into
    /// its place. Raw access for the crate's own pipelines, which restore
    /// well-formedness themselves before handing the store back.
    pub(crate) fn take_record(&mut self, i: usize) -> (r: EntityRecord)
        requires
            i < old(self)@.len(),
        ensures
            r == old(self)@[i as int],
            final(self)@ == old(self)@.update(i as int, old(self)@.last()).drop_last(),
            final(self).removed() == old(self).removed(),
            final(self).spec_next_handle() == old(self).spec_next_handle(),
    {
        self.entities.swap_remove(i)
    }

    /// Puts a record back at the end. Raw access, as with `take_record`.
    pub(crate) fn put_record(&mut self, rec: EntityRecord)
        ensures
            final(self)@ == old(self)@.push(rec),
            final(self).removed() == old(self).removed(),
            final(self).spec_next_handle() == old(self).spec_next_handle(),
    {
        self.entities.push(rec)
    }

    /// Moves the entity to the given loading stage, touching nothing
    /// else. The loading pipeline drives this; its operations keep the
    /// stage from ever regressing within an episode.
    pub(crate) fn set_stage_inner(&mut self, h: u64, stage: LoadStage)
        requires
            old(self).wf(),
            has_entity(old(self)@, h),
        ensures
            final(self).wf(),
            forall|h2: u64| has_entity(final(self)@, h2) <==> has_entity(old(self)@, h2),
            others_unchanged(old(self)@, final(self)@, h),
            ent(final(self)@, h) == (EntityRecord { stage, ..ent(old(self)@, h) }),
            final(self).removed() == old(self).removed(),
            final(self).spec_next_handle() == old(self).spec_next_handle(),
    {
        let ghost t0 = self@;
        let i = match self.find_index(h) {
            Some(i) => i,
            None => {
                proof {
                    assert(false);
                }
                return ;
            },
        };
        let ghost r0 = t0[i as int];
        proof {
            assert(comps_wf(r0.components@));
            assert(comps_wf(r0.pending@));
            assert(subs_wf(r0.sub_objects@));
            assert(r0.handle < self.spec_next_handle());
        }
        let mut rec = self.entities.swap_remove(i);
        rec.stage = stage;
        let ghost recg = rec;
        self.entities.push(rec);
        proof {
            lemma_ent_replace(t0, self@, i as int, recg);
            assert forall|h2: u64|
                has_entity(self@, h2) <==> (has_entity(t0, h2) || h2 == recg.handle) by {}
            lemma_wf_carries(t0, self@, recg, self.spec_next_handle());
        }
    }


    /// Read access to the record at this index.
    pub fn entity_at(&self, i: usize) -> (r: &EntityRecord)
        requires
            i < self@.len(),
        ensures
            *r == self@[i as int],
    {
        &self.entities[i]
    }

    /// Detaches the component of this kind, if attached, and logs the
    /// removal so the sender can announce it. A missing entity or missing
    /// component is a silent no-op.
    pub fn remove_component(&mut self, h: u64, kind: u16)
        requires
            old(self).wf(),
        ensures
            final(self).wf(),
            comp_data(final(self)@, h, kind) is None,
            forall|h2: u64, k2: u16|
                !(h2 == h && k2 == kind) ==> comp_data(final(self)@, h2, k2) == comp_data(
                    old(self)@,
                    h2,
                    k2,
                ) && comp_changed(final(self)@, h2, k2) == comp_changed(old(self)@, h2, k2),
            forall|h2: u64| has_entity(final(self)@, h2) <==> has_entity(old(self)@, h2),
            others_unchanged(old(self)@, final(self)@, h),
            comp_data(old(self)@, h, kind) is Some ==> final(self).removed()
                == old(self).removed().push(RemovedEntry { entity: h, kind })
                && same_but_components(ent(old(self)@, h), ent(final(self)@, h)),
            comp_data(old(self)@, h, kind) is None ==> final(self)@ == old(self)@
                && final(self).removed() == old(self).removed(),
            final(self).spec_next_handle() == old(self).spec_next_handle(),
    {
        let ghost t0 = self@;
        let i = match self.find_index(h) {
            Some(i) => i,
            None => {
                return ;
            },
        };
        let ghost r0 = t0[i as int];
        proof {
            assert(comps_wf(r0.components@));
            assert(comps_wf(r0.pending@));
            assert(subs_wf(r0.sub_objects@));
            assert(r0.handle < self.spec_next_handle());
        }
        let j = match find_kind_index(&self.entities[i].components, kind) {
            Some(j) => j,
            None => {
                return ;
            },
        };
        let mut rec = self.entities.swap_remove(i);
        let ghost c0 = rec.components@;
        proof {
            lemma_comp_at(c0, j as int);
        }
        rec.components.swap_remove(j);
        proof {
            lemma_comp_remove(c0, rec.components@, j as int);
        }
        let ghost recg = rec;
        self.entities.push(rec);
        self.removed_log.push(RemovedEntry { entity: h, kind });
        proof {
            lemma_ent_replace(t0, self@, i as int, recg);
            assert(ent(self@, h) == recg);
            assert(same_but_components(r0, recg));
            assert forall|h2: u64|
                has_entity(self@, h2) <==> (has_entity(t0, h2) || h2 == recg.handle) by {}
            lemma_wf_carries(t0, self@, recg, self.spec_next_handle());
            assert forall|h2: u64, k2: u16|
                !(h2 == h && k2 == kind) implies comp_data(self@, h2, k2) == comp_data(t0, h2, k2)
                && comp_changed(self@, h2, k2) == comp_changed(t0, h2, k2) by {
                if h2 == h {
                    assert(ent(t0, h) == r0);
                } else {
                    if has_entity(t0, h2) {
                        assert(ent(self@, h2) == ent(t0, h2));
                    }
                }
            }
        }
    }

    /// Drains the log of detached components, oldest first.
    pub fn take_removed(&mut self) -> (r: Vec<RemovedEntry>)
        requires
            old(self).wf(),
        ensures
            final(self).wf(),
            r@ == old(self).removed(),
            final(self).removed().len() == 0,
            final(self)@ == old(self)@,
            final(self).spec_next_handle() == old(self).spec_next_handle(),
    {
        let n = self.removed_log.len();
        let mut r: Vec<RemovedEntry> = Vec::new();
        let mut i: usize = 0;
        while i < n
            invariant
                i <= n,
                n == self.removed().len(),
                self == old(self),
                r@ == self.removed().subrange(0, i as int),
            decreases n - i,
        {
            r.push(self.removed_log[i]);
            proof {
                assert(r@ =~= self.removed().subrange(0, i + 1));
            }
            i = i + 1;
        }
        proof {
            assert(self.removed().subrange(0, n as int) =~= self.removed());
        }
        self.removed_log.clear();
        r
    }

    /// Sets or clears the marker keeping this entity out of replication.
    pub fn set_no_send(&mut self, h: u64, value: Option<NoSendEntity>)
        requires
            old(self).wf(),
            has_entity(old(self)@, h),
        ensures
            final(self).wf(),
            forall|h2: u64| has_entity(final(self)@, h2) <==> has_entity(old(self)@, h2),
            others_unchanged(old(self)@, final(self)@, h),
            ent(final(self)@, h) == (EntityRecord { no_send: value, ..ent(old(self)@, h) }),
            final(self).removed() == old(self).removed(),
            final(self).spec_next_handle() == old(self).spec_next_handle(),
    {
        let ghost t0 = self@;
        let i = match self.find_index(h) {
            Some(i) => i,
            None => {
                proof {
                    assert(false);
                }
                return ;
            },
        };
        let ghost r0 = t0[i as int];
        proof {
            assert(comps_wf(r0.components@));
            assert(comps_wf(r0.pending@));
            assert(subs_wf(r0.sub_objects@));
            assert(r0.handle < self.spec_next_handle());
        }
        let mut rec = self.entities.swap_remove(i);
        rec.no_send = value;
        let ghost recg = rec;
        self.entities.push(rec);
        proof {
            lemma_ent_replace(t0, self@, i as int, recg);
            assert forall|h2: u64|
                has_entity(self@, h2) <==> (has_entity(t0, h2) || h2 == recg.handle) by {}
            lemma_wf_carries(t0, self@, recg, self.spec_next_handle());
        }
    }

    /// Sets or clears the marker of an entity being loaded from saved data.
    pub fn set_needs_loaded(&mut self, h: u64, value: Option<NeedsLoaded>)
        requires
            old(self).wf(),
            has_entity(old(self)@, h),
        ensures
            final(self).wf(),
            forall|h2: u64| has_entity(final(self)@, h2) <==> has_entity(old(self)@, h2),
            others_unchanged(old(self)@, final(self)@, h),
            ent(final(self)@, h) == (EntityRecord { needs_loaded: value, ..ent(old(self)@, h) }),
            final(self).removed() == old(self).removed(),
            final(self).spec_next_handle() == old(self).spec_next_handle(),
    {
        let ghost t0 = self@;
        let i = match self.find_index(h) {
            Some(i) => i,
            None => {
                proof {
                    assert(false);
                }
                return ;
            },
        };
        let ghost r0 = t0[i as int];
        proof {
            assert(comps_wf(r0.components@));
            assert(comps_wf(r0.pending@));
            assert(subs_wf(r0.sub_objects@));
            assert(r0.handle < self.spec_next_handle());
        }
        let mut rec = self.entities.swap_remove(i);
        rec.needs_loaded = value;
        let ghost recg = rec;
        self.entities.push(rec);
        proof {
            lemma_ent_replace(t0, self@, i as int, recg);
            assert forall|h2: u64|
                has_entity(self@, h2) <==> (has_entity(t0, h2) || h2 == recg.handle) by {}
            lemma_wf_carries(t0, self@, recg, self.spec_next_handle());
        }
    }

    /// Registers `child` as a sub-object of `container` under `sub_id`:
    /// the container's registry gains the row and the child records its
    /// parent. A container always predates its sub-objects, so the
    /// container's handle is the smaller one.
    pub fn register_sub_object(&mut self, container: u64, sub_id: u32, child: u64)
        requires
            old(self).wf(),
            has_entity(old(self)@, container),
            has_entity(old(self)@, child),
            container < child,
            sub_lookup(old(self)@, container, sub_id) is None,
            parent_link(old(self)@, child) is None,
        ensures
            final(self).wf(),
            forall|h2: u64| has_entity(final(self)@, h2) <==> has_entity(old(self)@, h2),
            sub_lookup(final(self)@, container, sub_id) == Some(child),
            forall|d: u32|
                d != sub_id ==> sub_lookup(final(self)@, container, d) == sub_lookup(
                    old(self)@,
                    container,
                    d,
                ),
            parent_link(final(self)@, child) == Some(SubObjectParent { container, sub_id }),
            same_but_subs(ent(old(self)@, container), ent(final(self)@, container)),
            ent(final(self)@, child) == (EntityRecord {
                parent: Some(SubObjectParent { container, sub_id }),
                ..ent(old(self)@, child)
            }),
            forall|h2: u64|
                h2 != container && h2 != child && has_entity(old(self)@, h2) ==> ent(
                    final(self)@,
                    h2,
                ) == ent(old(self)@, h2),
            final(self).removed() == old(self).removed(),
            final(self).spec_next_handle() == old(self).spec_next_handle(),
    {
        let ghost t0 = self@;
        // First give the child its parent link.
        let i = match self.find_index(child) {
            Some(i) => i,
            None => {
                proof {
                    assert(false);
                }
                return ;
            },
        };
        let ghost rc0 = t0[i as int];
        proof {
            assert(comps_wf(rc0.components@));
            assert(comps_wf(rc0.pending@));
            assert(subs_wf(rc0.sub_objects@));
            assert(rc0.handle < self.spec_next_handle());
        }
        let mut rec = self.entities.swap_remove(i);
        rec.parent = Some(SubObjectParent { container, sub_id });
        let ghost recg = rec;
        self.entities.push(rec);
        proof {
            lemma_ent_replace(t0, self@, i as int, recg);
            assert forall|h2: u64|
                has_entity(self@, h2) <==> (has_entity(t0, h2) || h2 == recg.handle) by {}
            lemma_wf_carries(t0, self@, recg, self.spec_next_handle());
        }
        let ghost t1 = self@;
        // Then add the registry row to the container.
        let k = match self.find_index(container) {
            Some(k) => k,
            None => {
                proof {
                    assert(false);
                }
                return ;
            },
        };
        let ghost rk0 = t1[k as int];
        proof {
            assert(ent(t1, container) == ent(t0, container));
            assert(rk0 == ent(t0, container));
            assert(comps_wf(rk0.components@));
            assert(comps_wf(rk0.pending@));
            assert(subs_wf(rk0.sub_objects@));
            assert(rk0.handle < self.spec_next_handle());
        }
        let mut crec = self.entities.swap_remove(k);
        let ghost s0 = crec.sub_objects@;
        let row = SubObjectEntry { sub_id, child };
        crec.sub_objects.push(row);
        proof {
            lemma_sub_push(s0, crec.sub_objects@, row);
        }
        let ghost crecg = crec;
        self.entities.push(crec);
        proof {
            lemma_ent_replace(t1, self@, k as int, crecg);
            assert(ent(self@, container) == crecg);
            assert(same_but_subs(rk0, crecg));
            assert forall|h2: u64|
                has_entity(self@, h2) <==> (has_entity(t1, h2) || h2 == crecg.handle) by {}
            lemma_wf_carries(t1, self@, crecg, self.spec_next_handle());
            assert(ent(self@, child) == ent(t1, child));
            assert(ent(t1, child) == recg);
        }
    }

    /// Looks `sub_id` up in the container's sub-object registry.
    pub fn lookup_sub_object(&self, container: u64, sub_id: u32) -> (r: Option<u64>)
        requires
            self.wf(),
        ensures
            r == sub_lookup(self@, container, sub_id),
    {
        let i = match self.find_index(container) {
            Some(i) => i,
            None => {
                return None;
            },
        };
        proof {
            assert(subs_wf(self@[i as int].sub_objects@));
        }
        let s = &self.entities[i].sub_objects;
        let n = s.len();
        let mut j: usize = 0;
        while j < n
            invariant
                j <= n,
                n == s@.len(),
                subs_wf(s@),
                has_entity(self@, container),
                ent(self@, container).sub_objects@ == s@,
                forall|x: int| 0 <= x < j ==> (#[trigger] s@[x]).sub_id != sub_id,
            decreases n - j,
        {
            if s[j].sub_id == sub_id {
                proof {
                    lemma_sub_at(s@, j as int);
                }
                return Some(s[j].child);
            }
            j = j + 1;
        }
        assert(!shas(s@, sub_id));
        None
    }

    /// The container link of this entity, if it is a sub-object.
    pub fn parent_of_entity(&self, h: u64) -> (r: Option<SubObjectParent>)
        requires
            self.wf(),
        ensures
            r == parent_link(self@, h),
    {
        match self.find_index(h) {
            Some(i) => self.entities[i].parent,
            None => None,
        }
    }

    /// Where the entity stands in the staged loading pipeline.
    pub fn get_stage(&self, h: u64) -> (r: LoadStage)
        requires
            self.wf(),
        ensures
            r == stage_of(self@, h),
    {
        match self.find_index(h) {
            Some(i) => self.entities[i].stage,
            None => LoadStage::Stub,
        }
    }

    /// Whether the entity is marked as being loaded from saved data.
    pub fn get_needs_loaded(&self, h: u64) -> (r: Option<NeedsLoaded>)
        requires
            self.wf(),
        ensures
            has_entity(self@, h) ==> r == ent(self@, h).needs_loaded,
            !has_entity(self@, h) ==> r is None,
    {
        match self.find_index(h) {
            Some(i) => self.entities[i].needs_loaded,
            None => None,
        }
    }

    /// Whether replication may send this entity at all.
    pub fn is_sendable(&self, h: u64) -> (r: bool)
        requires
            self.wf(),
        ensures
            r == sendable(self@, h),
    {
        match self.find_index(h) {
            Some(i) => self.entities[i].no_send.is_none(),
            None => false,
        }
    }
}

} // verus!
