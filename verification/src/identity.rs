//! The bidirectional identity table.
//!
//! Each process owns one table per remote peer direction: it maps the
//! authoritative side's handle for a mirrored object (`origin_handle`, the
//! stable cross-process key) to the handle of the local entity standing in
//! for it, and back. The table holds at most one row per origin handle and
//! at most one row per local handle.

use vstd::prelude::*;

verus! {

/// One mirrored top-level entity: its cross-process key and its local stand-in.
#[derive(Debug, Clone, Copy, PartialEq, Eq, Structural)]
pub struct IdentityRow {
    /// The authoritative side's handle, as sent on the wire.
    pub origin_handle: u64,
    /// The handle of the local entity mirroring it.
    pub local_handle: u64,
}

/// Some row of `t` carries this origin handle.
pub open spec fn has_origin(t: Seq<IdentityRow>, origin: u64) -> bool {
    exists|i: int| 0 <= i < t.len() && (#[trigger] t[i]).origin_handle == origin
}

/// Some row of `t` carries this local handle.
pub open spec fn has_local(t: Seq<IdentityRow>, local: u64) -> bool {
    exists|i: int| 0 <= i < t.len() && (#[trigger] t[i]).local_handle == local
}

/// Some row of `t` maps `origin` to `local`.
pub open spec fn row_maps(t: Seq<IdentityRow>, origin: u64, local: u64) -> bool {
    exists|i: int|
        0 <= i < t.len() && (#[trigger] t[i]).origin_handle == origin && t[i].local_handle == local
}

/// At most one row per origin handle, at most one row per local handle.
pub open spec fn rows_wf(t: Seq<IdentityRow>) -> bool {
    forall|i: int, j: int|
        0 <= i < j < t.len() ==> (#[trigger] t[i]).origin_handle != (#[trigger] t[j]).origin_handle
            && t[i].local_handle != t[j].local_handle
}

/// Bidirectional map between authoritative-side and local entity handles,
/// one row per mirrored top-level entity.
#[derive(Debug)]
pub struct EntityIdentityTable {
    rows: Vec<IdentityRow>,
}

impl View for EntityIdentityTable {
    type V = Seq<IdentityRow>;

    closed spec fn view(&self) -> Seq<IdentityRow> {
        self.rows@
    }
}

impl EntityIdentityTable {
    /// Both lookup directions agree and are functional.
    pub open spec fn wf(&self) -> bool {
        rows_wf(self@)
    }

    /// An empty table; created when a connection is established.
    pub fn new() -> (r: EntityIdentityTable)
        ensures
            r.wf(),
            r@.len() == 0,
    {
        EntityIdentityTable { rows: Vec::new() }
    }

    /// How many objects are currently mirrored.
    pub fn len(&self) -> (r: usize)
        ensures
            r == self@.len(),
    {
        self.rows.len()
    }

    /// The local handle mirroring `origin`, if that object is known here.
    pub fn local_of(&self, origin: u64) -> (r: Option<u64>)
        requires
            self.wf(),
        ensures
            r matches Some(local) ==> row_maps(self@, origin, local),
            r is None ==> !has_origin(self@, origin),
    {
        let n = self.rows.len();
        let mut i: usize = 0;
        while i < n
            invariant
                i <= n,
                n == self@.len(),
                self.wf(),
                forall|k: int| 0 <= k < i ==> (#[trigger] self@[k]).origin_handle != origin,
            decreases n - i,
        {
            if self.rows[i].origin_handle == origin {
                return Some(self.rows[i].local_handle);
            }
            i = i + 1;
        }
        None
    }

    /// The origin handle that `local` mirrors, if it mirrors one.
    pub fn origin_of(&self, local: u64) -> (r: Option<u64>)
        requires
            self.wf(),
        ensures
            r matches Some(origin) ==> row_maps(self@, origin, local),
            r is None ==> !has_local(self@, local),
    {
        let n = self.rows.len();
        let mut i: usize = 0;
        while i < n
            invariant
                i <= n,
                n == self@.len(),
                self.wf(),
                forall|k: int| 0 <= k < i ==> (#[trigger] self@[k]).local_handle != local,
            decreases n - i,
        {
            if self.rows[i].local_handle == local {
                return Some(self.rows[i].origin_handle);
            }
            i = i + 1;
        }
        None
    }

    /// Inserts the row `origin <-> local`. A second row for a handle that
    /// already has one would break the table's invariant, so the caller must
    /// have ruled it out; the resolver only inserts after a failed lookup.
    pub fn insert(&mut self, origin: u64, local: u64)
        requires
            old(self).wf(),
            !has_origin(old(self)@, origin),
            !has_local(old(self)@, local),
        ensures
            final(self).wf(),
            final(self)@ == old(self)@.push(IdentityRow { origin_handle: origin, local_handle: local }),
            row_maps(final(self)@, origin, local),
            forall|o: u64, l: u64|
                row_maps(final(self)@, o, l) <==> (row_maps(old(self)@, o, l) || (o == origin && l
                    == local)),
    {
        self.rows.push(IdentityRow { origin_handle: origin, local_handle: local });
        proof {
            let t0 = old(self)@;
            let t1 = self@;
            assert(t1[t1.len() - 1].origin_handle == origin);
            assert forall|o: u64, l: u64| row_maps(t1, o, l) implies (row_maps(t0, o, l) || (o
                == origin && l == local)) by {
                let i = choose|i: int|
                    0 <= i < t1.len() && (#[trigger] t1[i]).origin_handle == o
                        && t1[i].local_handle == l;
                if i < t0.len() {
                    assert(t0[i].origin_handle == o);
                }
            }
            assert forall|o: u64, l: u64| row_maps(t0, o, l) implies row_maps(t1, o, l) by {
                let i = choose|i: int|
                    0 <= i < t0.len() && (#[trigger] t0[i]).origin_handle == o
                        && t0[i].local_handle == l;
                assert(t1[i].origin_handle == o);
            }
        }
    }

    /// Removes the row for `origin`, if any; called when a despawn
    /// notification arrives or the mirrored object despawns locally.
    /// Idempotent: with no such row this changes nothing.
    pub fn forget(&mut self, origin: u64)
        requires
            old(self).wf(),
        ensures
            final(self).wf(),
            !has_origin(final(self)@, origin),
            forall|o: u64, l: u64|
                o != origin ==> (row_maps(final(self)@, o, l) <==> row_maps(old(self)@, o, l)),
            has_origin(old(self)@, origin) ==> final(self)@.len() == old(self)@.len() - 1,
            !has_origin(old(self)@, origin) ==> final(self)@ == old(self)@,
    {
        let n = self.rows.len();
        let mut i: usize = 0;
        while i < n
            invariant
                i <= n,
                n == self@.len(),
                self.wf(),
                self@ == old(self)@,
                forall|k: int| 0 <= k < i ==> (#[trigger] self@[k]).origin_handle != origin,
            decreases n - i,
        {
            if self.rows[i].origin_handle == origin {
                self.rows.remove(i);
                proof {
                    let t0 = old(self)@;
                    let t1 = self@;
                    let r: int = i as int;
                    assert(t1 =~= t0.subrange(0, r) + t0.subrange(r + 1, t0.len() as int));
                    assert forall|k: int| 0 <= k < t1.len() implies #[trigger] t1[k] == (if k < r {
                        t0[k]
                    } else {
                        t0[k + 1]
                    }) by {}
                    assert forall|k: int| 0 <= k < t1.len() implies (#[trigger] t1[k]).origin_handle
                        != origin by {
                        if k < r {
                            assert(t1[k] == t0[k]);
                        } else {
                            assert(t1[k] == t0[k + 1]);
                        }
                    }
                    assert forall|o: u64, l: u64|
                        o != origin && row_maps(t1, o, l) implies row_maps(t0, o, l) by {
                        let k = choose|k: int|
                            0 <= k < t1.len() && (#[trigger] t1[k]).origin_handle == o
                                && t1[k].local_handle == l;
                        if k < r {
                            assert(t0[k].origin_handle == o && t0[k].local_handle == l);
                        } else {
                            assert(t0[k + 1].origin_handle == o && t0[k + 1].local_handle == l);
                        }
                    }
                    assert forall|o: u64, l: u64|
                        o != origin && row_maps(t0, o, l) implies row_maps(t1, o, l) by {
                        let k = choose|k: int|
                            0 <= k < t0.len() && (#[trigger] t0[k]).origin_handle == o
                                && t0[k].local_handle == l;
                        if k < r {
                            assert(t1[k].origin_handle == o && t1[k].local_handle == l);
                        } else {
                            assert(k != r);
                            assert(t1[k - 1].origin_handle == o && t1[k - 1].local_handle == l);
                        }
                    }
                }
                return ;
            }
            i = i + 1;
        }
    }

    /// Removes the row for `local`, if any; the direction used when a local
    /// entity is despawned and its mapping must go. Idempotent.
    pub fn forget_local(&mut self, local: u64)
        requires
            old(self).wf(),
        ensures
            final(self).wf(),
            !has_local(final(self)@, local),
            forall|o: u64, l: u64|
                l != local ==> (row_maps(final(self)@, o, l) <==> row_maps(old(self)@, o, l)),
            has_local(old(self)@, local) ==> final(self)@.len() == old(self)@.len() - 1,
            !has_local(old(self)@, local) ==> final(self)@ == old(self)@,
    {
        let n = self.rows.len();
        let mut i: usize = 0;
        while i < n
            invariant
                i <= n,
                n == self@.len(),
                self.wf(),
                self@ == old(self)@,
                forall|k: int| 0 <= k < i ==> (#[trigger] self@[k]).local_handle != local,
            decreases n - i,
        {
            if self.rows[i].local_handle == local {
                self.rows.remove(i);
                proof {
                    let t0 = old(self)@;
                    let t1 = self@;
                    let r: int = i as int;
                    assert(t1 =~= t0.subrange(0, r) + t0.subrange(r + 1, t0.len() as int));
                    assert forall|k: int| 0 <= k < t1.len() implies (#[trigger] t1[k]).local_handle
                        != local by {
                        if k < r {
                            assert(t1[k] == t0[k]);
                        } else {
                            assert(t1[k] == t0[k + 1]);
                        }
                    }
                    assert forall|o: u64, l: u64|
                        l != local && row_maps(t1, o, l) implies row_maps(t0, o, l) by {
                        let k = choose|k: int|
                            0 <= k < t1.len() && (#[trigger] t1[k]).origin_handle == o
                                && t1[k].local_handle == l;
                        if k < r {
                            assert(t0[k].origin_handle == o && t0[k].local_handle == l);
                        } else {
                            assert(t0[k + 1].origin_handle == o && t0[k + 1].local_handle == l);
                        }
                    }
                    assert forall|o: u64, l: u64|
                        l != local && row_maps(t0, o, l) implies row_maps(t1, o, l) by {
                        let k = choose|k: int|
                            0 <= k < t0.len() && (#[trigger] t0[k]).origin_handle == o
                                && t0[k].local_handle == l;
                        if k < r {
                            assert(t1[k].origin_handle == o && t1[k].local_handle == l);
                        } else {
                            assert(k != r);
                            assert(t1[k - 1].origin_handle == o && t1[k - 1].local_handle == l);
                        }
                    }
                }
                return ;
            }
            i = i + 1;
        }
    }

    /// Drops every row; called when the connection this table mirrors is
    /// torn down.
    pub fn clear(&mut self)
        ensures
            final(self).wf(),
            final(self)@.len() == 0,
    {
        self.rows.clear();
    }
}

/// Removes the identity rows of every local entity that is about to be
/// despawned. The caller collects the doomed entities (an entity and all
/// its children) and hands their handles in; each row is dropped as
/// `forget_local` does.
pub fn remove_mappings(table: &mut EntityIdentityTable, despawned: &Vec<u64>)
    requires
        old(table).wf(),
    ensures
        final(table).wf(),
        forall|k: int| 0 <= k < despawned@.len() ==> !has_local(final(table)@, #[trigger] despawned@[k]),
        forall|o: u64, l: u64|
            !despawned@.contains(l) ==> (row_maps(final(table)@, o, l) <==> row_maps(
                old(table)@,
                o,
                l,
            )),
{
    let n = despawned.len();
    let mut i: usize = 0;
    while i < n
        invariant
            i <= n,
            n == despawned@.len(),
            table.wf(),
            forall|k: int| 0 <= k < i ==> !has_local(table@, #[trigger] despawned@[k]),
            forall|o: u64, l: u64|
                !despawned@.contains(l) ==> (row_maps(table@, o, l) <==> row_maps(old(table)@, o, l)),
        decreases n - i,
    {
        let ghost before = table@;
        table.forget_local(despawned[i]);
        proof {
            assert forall|k: int| 0 <= k < i + 1 implies !has_local(table@, #[trigger] despawned@[k]) by {
                if despawned@[k] != despawned@[i as int] {
                    assert(!has_local(before, despawned@[k]));
                    if has_local(table@, despawned@[k]) {
                        let j = choose|j: int|
                            0 <= j < table@.len() && (#[trigger] table@[j]).local_handle
                                == despawned@[k];
                        assert(row_maps(table@, table@[j].origin_handle, despawned@[k]));
                        assert(row_maps(before, table@[j].origin_handle, despawned@[k]));
                    }
                }
            }
            assert forall|o: u64, l: u64| !despawned@.contains(l) implies (row_maps(table@, o, l)
                <==> row_maps(old(table)@, o, l)) by {
                assert(l != despawned@[i as int]);
            }
        }
        i = i + 1;
    }
}


/// The local handle that `origin` maps to; meaningful when some row
/// carries the origin.
pub open spec fn spec_local(t: Seq<IdentityRow>, origin: u64) -> u64 {
    choose|l: u64| row_maps(t, origin, l)
}

/// A well-formed table maps an origin to one local handle.
pub proof fn lemma_row_functional(t: Seq<IdentityRow>, origin: u64, l1: u64, l2: u64)
    requires
        rows_wf(t),
        row_maps(t, origin, l1),
        row_maps(t, origin, l2),
    ensures
        l1 == l2,
{
    let i = choose|i: int|
        0 <= i < t.len() && (#[trigger] t[i]).origin_handle == origin && t[i].local_handle == l1;
    let j = choose|j: int|
        0 <= j < t.len() && (#[trigger] t[j]).origin_handle == origin && t[j].local_handle == l2;
    if i < j {
        assert(t[i].origin_handle != t[j].origin_handle);
    } else if j < i {
        assert(t[j].origin_handle != t[i].origin_handle);
    }
}

/// With a row present, `spec_local` is that row's local handle.
pub proof fn lemma_spec_local(t: Seq<IdentityRow>, origin: u64, l: u64)
    requires
        rows_wf(t),
        row_maps(t, origin, l),
    ensures
        spec_local(t, origin) == l,
{
    let l2 = spec_local(t, origin);
    assert(row_maps(t, origin, l2));
    lemma_row_functional(t, origin, l, l2);
}

/// Every local handle a table maps to stays below this bound.
pub open spec fn locals_bounded(t: Seq<IdentityRow>, bound: u64) -> bool {
    forall|i: int| 0 <= i < t.len() ==> (#[trigger] t[i]).local_handle < bound
}

} // verus!
