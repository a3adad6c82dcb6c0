//! Component-kind registration.
//!
//! At process start each participating component type registers its name
//! and its sync policy, and is assigned a session-stable integer kind: its
//! position in the registration order. Both peers of a session run the
//! same deterministic registration sequence, so identical name sequences
//! yield identical kinds — proved below.

use vstd::prelude::*;

use crate::authority::ComponentSyncPolicy;
use crate::bytes::eq_bytes;

verus! {

/// One registered component type: its name and its sync policy.
#[derive(Debug)]
pub struct ComponentRegistration {
    /// The component type's name (UTF-8 bytes), unique in the registry.
    pub name: Vec<u8>,
    /// Who may send this component, and under which rule.
    pub policy: ComponentSyncPolicy,
}

/// Some entry of `t` carries this name.
pub open spec fn reg_has(t: Seq<ComponentRegistration>, name: Seq<u8>) -> bool {
    exists|i: int| 0 <= i < t.len() && (#[trigger] t[i]).name@ == name
}

/// The index — and thus the kind — assigned to this name.
pub open spec fn reg_idx(t: Seq<ComponentRegistration>, name: Seq<u8>) -> int {
    choose|i: int| 0 <= i < t.len() && (#[trigger] t[i]).name@ == name
}

/// At most one entry per name, and no more kinds than fit a `u16`.
pub open spec fn reg_wf(t: Seq<ComponentRegistration>) -> bool {
    &&& forall|i: int, j: int|
        0 <= i < j < t.len() ==> (#[trigger] t[i]).name@ != (#[trigger] t[j]).name@
    &&& t.len() <= 0x1_0000
}

/// The policy registered for this kind.
pub open spec fn policy_of(t: Seq<ComponentRegistration>, kind: u16) -> Option<ComponentSyncPolicy> {
    if (kind as int) < t.len() {
        Some(t[kind as int].policy)
    } else {
        None
    }
}

/// The entry at a unique-name index is the one `reg_idx` finds.
pub proof fn lemma_reg_at(t: Seq<ComponentRegistration>, i: int)
    requires
        reg_wf(t),
        0 <= i < t.len(),
    ensures
        reg_has(t, t[i].name@),
        reg_idx(t, t[i].name@) == i,
{
    assert(reg_has(t, t[i].name@));
    let j = reg_idx(t, t[i].name@);
    if i != j {
        if i < j {
            assert(t[i].name@ != t[j].name@);
        } else {
            assert(t[j].name@ != t[i].name@);
        }
    }
}

/// The name-to-kind table built at process start.
#[derive(Debug)]
pub struct ComponentRegistry {
    entries: Vec<ComponentRegistration>,
}

impl View for ComponentRegistry {
    type V = Seq<ComponentRegistration>;

    closed spec fn view(&self) -> Seq<ComponentRegistration> {
        self.entries@
    }
}

impl ComponentRegistry {
    /// One entry per name; kinds fit a `u16`.
    pub open spec fn wf(&self) -> bool {
        reg_wf(self@)
    }

    /// An empty registry.
    pub fn new() -> (r: ComponentRegistry)
        ensures
            r.wf(),
            r@.len() == 0,
    {
        ComponentRegistry { entries: Vec::new() }
    }

    /// How many component types are registered.
    pub fn len(&self) -> (r: usize)
        ensures
            r == self@.len(),
    {
        self.entries.len()
    }

    /// The kind assigned to this name, if it is registered.
    pub fn kind_from_name(&self, name: &Vec<u8>) -> (r: Option<u16>)
        requires
            self.wf(),
        ensures
            r matches Some(k) ==> reg_has(self@, name@) && k == reg_idx(self@, name@),
            r is None ==> !reg_has(self@, name@),
    {
        let n = self.entries.len();
        let mut i: usize = 0;
        while i < n
            invariant
                i <= n,
                n == self@.len(),
                self.wf(),
                forall|k: int| 0 <= k < i ==> (#[trigger] self@[k]).name@ != name@,
            decreases n - i,
        {
            if eq_bytes(&self.entries[i].name, name) {
                proof {
                    lemma_reg_at(self@, i as int);
                }
                return Some(i as u16);
            }
            i = i + 1;
        }
        None
    }

    /// The policy registered for this kind, if the kind is known.
    pub fn policy_for(&self, kind: u16) -> (r: Option<ComponentSyncPolicy>)
        requires
            self.wf(),
        ensures
            r == policy_of(self@, kind),
    {
        if (kind as usize) < self.entries.len() {
            Some(self.entries[kind as usize].policy)
        } else {
            None
        }
    }
}

/// Registers a component type under its name with its sync policy and
/// returns its session-stable kind: its position in the registration
/// order. A name registers once per session.
pub fn register(
    registry: &mut ComponentRegistry,
    name: Vec<u8>,
    policy: ComponentSyncPolicy,
) -> (kind: u16)
    requires
        old(registry).wf(),
        !reg_has(old(registry)@, name@),
        old(registry)@.len() < 0x1_0000,
    ensures
        final(registry).wf(),
        kind == old(registry)@.len(),
        final(registry)@.len() == old(registry)@.len() + 1,
        final(registry)@[kind as int].name@ == name@,
        final(registry)@[kind as int].policy == policy,
        reg_has(final(registry)@, name@),
        reg_idx(final(registry)@, name@) == kind,
        forall|m: Seq<u8>|
            m != name@ ==> (reg_has(final(registry)@, m) <==> reg_has(old(registry)@, m)),
        forall|m: Seq<u8>|
            m != name@ && reg_has(old(registry)@, m) ==> reg_idx(final(registry)@, m) == reg_idx(
                old(registry)@,
                m,
            ),
        policy_of(final(registry)@, kind) == Some(policy),
        forall|k: u16| k != kind ==> policy_of(final(registry)@, k) == policy_of(old(registry)@, k),
    {
    let ghost t0 = registry@;
    let kind = registry.entries.len() as u16;
    registry.entries.push(ComponentRegistration { name, policy });
    proof {
        let t1 = registry@;
        let n = t0.len() as int;
        assert forall|i: int, j: int| 0 <= i < j < t1.len() implies (#[trigger] t1[i]).name@
            != (#[trigger] t1[j]).name@ by {
            if j == n {
                assert(t1[i] == t0[i]);
                assert(reg_has(t0, t0[i].name@));
            } else {
                assert(t1[i] == t0[i] && t1[j] == t0[j]);
            }
        }
        lemma_reg_at(t1, n);
        assert forall|m: Seq<u8>| m != t1[n].name@ && reg_has(t1, m) implies reg_has(t0, m) by {
            let i = choose|i: int| 0 <= i < t1.len() && (#[trigger] t1[i]).name@ == m;
            if i < n {
                assert(t0[i].name@ == m);
            }
        }
        assert forall|m: Seq<u8>| reg_has(t0, m) implies reg_has(t1, m) by {
            let i = choose|i: int| 0 <= i < t0.len() && (#[trigger] t0[i]).name@ == m;
            assert(t1[i].name@ == m);
        }
        assert forall|m: Seq<u8>| m != t1[n].name@ && reg_has(t0, m) implies reg_idx(t1, m)
            == reg_idx(t0, m) by {
            let i = reg_idx(t0, m);
            lemma_reg_at(t0, i);
            assert(t1[i] == t0[i]);
            lemma_reg_at(t1, i);
        }
    }
    kind
}

/// Registration is deterministic: two registries that registered the same
/// names in the same order assign every name the same kind, so both peers
/// of a session derive identical integers for identical names.
pub proof fn lemma_registration_deterministic(
    t1: Seq<ComponentRegistration>,
    t2: Seq<ComponentRegistration>,
    name: Seq<u8>,
)
    requires
        reg_wf(t1),
        reg_wf(t2),
        t1.len() == t2.len(),
        forall|i: int| 0 <= i < t1.len() ==> (#[trigger] t1[i]).name@ == (#[trigger] t2[i]).name@,
        reg_has(t1, name),
    ensures
        reg_has(t2, name),
        reg_idx(t1, name) == reg_idx(t2, name),
{
    let i = reg_idx(t1, name);
    lemma_reg_at(t1, i);
    assert(t2[i].name@ == name);
    lemma_reg_at(t2, i);
}

} // verus!
