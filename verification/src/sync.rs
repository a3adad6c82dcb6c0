//! The component replication protocol.
//!
//! Sender side, once per tick: every component that changed since the
//! last drain, on an entity that replication may send, and whose policy
//! makes this side a sender, becomes an `Upsert` on the wire; every
//! component detached this tick becomes a `Remove`. Receiver side, once
//! per tick: each frame is decoded, its wire reference resolved, the
//! authority validator run where the policy demands it, redundant echoes
//! of `Shared` values suppressed bit-for-bit, and the value applied.
//! Every failure drops the single message and nothing else.

use vstd::prelude::*;

use crate::authority::{
    authority_ok, client_rule, client_sends, server_sends, validate_authority,
    ComponentSyncPolicy, Pilots, ServerLobby,
};
use crate::bytes::{copy_bytes, eq_bytes};
use crate::registry::{policy_of, ComponentRegistry};
use crate::resolve::{resolve_for_send, resolve_send};
use crate::store::{
    comp_changed, comp_data, ent, ent_idx, has_entity, lemma_comp_at, lemma_ent_at, sendable,
    EntityStore,
};
use crate::wire::{ReplicationMessage, WireEntityRef};

verus! {

/// A changed component this side should send: handle and kind.
pub open spec fn pair_ok(t: Seq<crate::store::EntityRecord>, p: (u64, u16)) -> bool {
    comp_changed(t, p.0, p.1) && sendable(t, p.0)
}

/// Collects every component that changed since the last drain on an
/// entity replication may send: exactly those, each once.
pub fn changed_components(store: &EntityStore) -> (r: Vec<(u64, u16)>)
    requires
        store.wf(),
    ensures
        forall|x: int| 0 <= x < r@.len() ==> pair_ok(store@, #[trigger] r@[x]),
        forall|h: u64, k: u16|
            comp_changed(store@, h, k) && sendable(store@, h) ==> r@.contains((h, k)),
        forall|a: int, b: int| 0 <= a < b < r@.len() ==> r@[a] != r@[b],
{
    let ghost t = store@;
    let n = store.len();
    let mut out: Vec<(u64, u16)> = Vec::new();
    let mut i: usize = 0;
    while i < n
        invariant
            i <= n,
            n == t.len(),
            t == store@,
            store.wf(),
            forall|x: int|
                0 <= x < out@.len() ==> pair_ok(t, #[trigger] out@[x]) && ent_idx(t, out@[x].0) < i,
            forall|h: u64, k: u16|
                comp_changed(t, h, k) && sendable(t, h) && ent_idx(t, h) < i ==> out@.contains(
                    (h, k),
                ),
            forall|a: int, b: int| 0 <= a < b < out@.len() ==> out@[a] != out@[b],
        decreases n - i,
    {
        let rec = store.entity_at(i);
        proof {
            lemma_ent_at(t, i as int);
        }
        let ghost hh = t[i as int].handle;
        let ghost c = t[i as int].components@;
        if rec.no_send.is_none() {
            let m = rec.components.len();
            let mut j: usize = 0;
            while j < m
                invariant
                    j <= m,
                    i < n,
                    n == t.len(),
                    t == store@,
                    store.wf(),
                    hh == t[i as int].handle,
                    c == t[i as int].components@,
                    m == c.len(),
                    *rec == t[i as int],
                    rec.no_send is None,
                    has_entity(t, hh),
                    ent_idx(t, hh) == i,
                    ent(t, hh) == t[i as int],
                    forall|x: int|
                        0 <= x < out@.len() ==> pair_ok(t, #[trigger] out@[x]) && (ent_idx(
                            t,
                            out@[x].0,
                        ) < i || (out@[x].0 == hh && crate::store::chas(c, out@[x].1)
                            && crate::store::cidx(c, out@[x].1) < j)),
                    forall|h: u64, k: u16|
                        comp_changed(t, h, k) && sendable(t, h) && ent_idx(t, h) < i
                            ==> out@.contains((h, k)),
                    forall|k: u16|
                        comp_changed(t, hh, k) && crate::store::cidx(c, k) < j ==> out@.contains(
                            (hh, k),
                        ),
                    forall|a: int, b: int| 0 <= a < b < out@.len() ==> out@[a] != out@[b],
                decreases m - j,
            {
                if rec.components[j].changed {
                    let ghost out0 = out@;
                    let kind = rec.components[j].kind;
                    proof {
                        assert(crate::store::comps_wf(c));
                        lemma_comp_at(c, j as int);
                        assert(comp_changed(t, hh, kind));
                        assert(sendable(t, hh));
                    }
                    out.push((rec.handle, kind));
                    proof {
                        assert(out@ == out0.push((hh, kind)));
                        assert forall|a: int, b: int|
                            0 <= a < b < out@.len() implies out@[a] != out@[b] by {
                            if b == out@.len() - 1 {
                                let p = out@[a];
                                if p.0 == hh {
                                    assert(crate::store::cidx(c, p.1) < j);
                                    if p.1 == kind {
                                        assert(crate::store::cidx(c, kind) == j);
                                    }
                                } else {
                                    assert(ent_idx(t, p.0) < i);
                                }
                            }
                        }
                        assert forall|h: u64, k: u16|
                            comp_changed(t, h, k) && sendable(t, h) && ent_idx(t, h) < i
                                implies out@.contains((h, k)) by {
                            assert(out0.contains((h, k)));
                            let x = choose|x: int| 0 <= x < out0.len() && out0[x] == (h, k);
                            assert(out@[x] == (h, k));
                        }
                        assert forall|k: u16|
                            comp_changed(t, hh, k) && crate::store::cidx(c, k) < j + 1
                                implies out@.contains((hh, k)) by {
                            if crate::store::cidx(c, k) < j {
                                assert(out0.contains((hh, k)));
                                let x = choose|x: int| 0 <= x < out0.len() && out0[x] == (hh, k);
                                assert(out@[x] == (hh, k));
                            } else {
                                assert(crate::store::chas(c, k));
                                lemma_comp_at(c, crate::store::cidx(c, k));
                                assert(k == kind);
                                assert(out@[out@.len() - 1] == (hh, k));
                            }
                        }
                    }
                } else {
                    proof {
                        assert(crate::store::comps_wf(c));
                        assert forall|k: u16|
                            comp_changed(t, hh, k) && crate::store::cidx(c, k) < j + 1
                                implies out@.contains((hh, k)) by {
                            if crate::store::cidx(c, k) >= j {
                                assert(crate::store::chas(c, k));
                                lemma_comp_at(c, crate::store::cidx(c, k));
                                assert(crate::store::cidx(c, k) == j);
                                assert(!c[j as int].changed);
                                assert(crate::store::cchanged(c, k) == c[j as int].changed);
                            }
                        }
                    }
                }
                j = j + 1;
            }
            proof {
                assert forall|h: u64, k: u16|
                    comp_changed(t, h, k) && sendable(t, h) && ent_idx(t, h) < i + 1
                        implies out@.contains((h, k)) by {
                    if ent_idx(t, h) == i {
                        assert(has_entity(t, h));
                        assert(t[ent_idx(t, h)].handle == h);
                        assert(h == hh);
                        assert(crate::store::cchanged(c, k));
                        assert(crate::store::chas(c, k));
                        assert(crate::store::cidx(c, k) < m);
                    }
                }
                assert forall|x: int|
                    0 <= x < out@.len() implies pair_ok(t, #[trigger] out@[x]) && ent_idx(
                    t,
                    out@[x].0,
                ) < i + 1 by {}
            }
        } else {
            proof {
                assert forall|h: u64, k: u16|
                    comp_changed(t, h, k) && sendable(t, h) && ent_idx(t, h) < i + 1
                        implies out@.contains((h, k)) by {
                    if ent_idx(t, h) == i {
                        assert(has_entity(t, h));
                        assert(t[ent_idx(t, h)].handle == h);
                        assert(ent(t, h).no_send is Some);
                    }
                }
            }
        }
        i = i + 1;
    }
    out
}

/// Builds the `Upsert` announcing this component's current value: the
/// registered kind, the entity's wire reference, and the value's bytes.
/// `None` exactly when the entity does not resolve or holds no such
/// component.
pub fn build_component_message(store: &EntityStore, h: u64, kind: u16) -> (r: Option<
    ReplicationMessage,
>)
    requires
        store.wf(),
    ensures
        r matches Some(m) ==> resolve_send(store@, h) is Some && comp_data(store@, h, kind) is Some
            && crate::wire::message_parts(m) == (
            0u8,
            kind,
            resolve_send(store@, h).unwrap(),
            comp_data(store@, h, kind).unwrap(),
        ) && crate::wire::wf_message(m),
        r is None ==> resolve_send(store@, h) is None || comp_data(store@, h, kind) is None,
{
    let wire_ref = match resolve_for_send(store, h) {
        Some(w) => w,
        None => {
            return None;
        },
    };
    let payload = match store.get_component(h, kind) {
        Some(data) => copy_bytes(data),
        None => {
            return None;
        },
    };
    let plen = payload.len();
    proof {
        assert(payload@.len() == plen);
        assert(payload@.len() <= u64::MAX);
    }
    Some(ReplicationMessage::Upsert { component_kind: kind, wire_ref, payload })
}


/// What became of one received message. Every failure drops that single
/// message and nothing else.
#[derive(Debug, Clone, Copy, PartialEq, Eq, Structural)]
pub enum ApplyOutcome {
    /// The value was applied to the resolved entity.
    Applied,
    /// A `Shared`-policy value bit-for-bit equal to the one already held:
    /// discarded without re-triggering change detection.
    SuppressedEcho,
    /// The component kind is not registered here.
    DroppedUnknownKind,
    /// The policy gives the sending side no right to send this kind.
    DroppedPolicy,
    /// The sender does not hold the claimed authority.
    DroppedAuthority,
    /// The wire reference did not resolve to a live local entity.
    DroppedUnresolvable,
    /// The frame did not parse as a replication message.
    DroppedMalformed,
}

/// A client-sent component value routed to its resolved target.
#[derive(Debug)]
pub struct GotComponentToSyncEvent {
    /// The sending connection.
    pub client_id: u64,
    /// The component kind claimed by the message.
    pub component_id: u16,
    /// The resolved target entity.
    pub entity: u64,
    /// The top-level entity authority is checked against.
    pub authority_entity: u64,
    /// The serialized component value.
    pub raw_data: Vec<u8>,
}

/// A client-sent component removal routed to its resolved target.
#[derive(Debug, Clone, Copy, PartialEq, Eq, Structural)]
pub struct GotComponentToRemoveEvent {
    /// The sending connection.
    pub client_id: u64,
    /// The component kind claimed by the message.
    pub component_id: u16,
    /// The resolved target entity.
    pub entity: u64,
    /// The top-level entity authority is checked against.
    pub authority_entity: u64,
}

/// One routed inbound message.
#[derive(Debug)]
pub enum RoutedMessage {
    /// An upsert to apply, pending the authority check.
    Sync(GotComponentToSyncEvent),
    /// A removal to apply, pending the authority check.
    Removal(GotComponentToRemoveEvent),
}

/// What routing one frame on the authoritative side yields: whether it is
/// an upsert, its kind, the resolved target, the authority root, and the
/// payload. `None` exactly when the frame does not parse or does not
/// resolve.
#[verifier::opaque]
pub open spec fn spec_route(ts: Seq<crate::store::EntityRecord>, s: Seq<u8>) -> Option<
    (bool, u16, u64, u64, Seq<u8>),
> {
    match crate::wire::message_parse(s) {
        Some((tag, kind, wr, payload)) => match crate::resolve::resolve_local(ts, wr) {
            Some(e) => Some((tag == 0u8, kind, e, crate::resolve::root_origin(wr), payload)),
            None => None,
        },
        None => None,
    }
}

/// Decodes one inbound frame and resolves its wire reference against the
/// authoritative side's own store. Malformed or unresolvable frames yield
/// `None`: dropped, never fatal.
pub fn server_route_frame(store: &EntityStore, client_id: u64, frame: &Vec<u8>) -> (r: Option<
    RoutedMessage,
>)
    requires
        store.wf(),
    ensures
        r matches Some(RoutedMessage::Sync(ev)) ==> spec_route(store@, frame@) == Some(
            (true, ev.component_id, ev.entity, ev.authority_entity, ev.raw_data@),
        ) && ev.client_id == client_id,
        r matches Some(RoutedMessage::Removal(ev)) ==> spec_route(store@, frame@) == Some(
            (false, ev.component_id, ev.entity, ev.authority_entity, Seq::<u8>::empty()),
        ) && ev.client_id == client_id,
        r is None ==> spec_route(store@, frame@) is None,
{
    proof {
        reveal(spec_route);
    }
    let msg = match crate::wire::decode_message(frame) {
        Some(m) => m,
        None => {
            return None;
        },
    };
    match msg {
        ReplicationMessage::Upsert { component_kind, wire_ref, payload } => {
            let entity = match crate::resolve::resolve_local_handle(store, &wire_ref) {
                Some(e) => e,
                None => {
                    return None;
                },
            };
            let authority_entity = crate::resolve::wire_root(&wire_ref);
            Some(
                RoutedMessage::Sync(
                    GotComponentToSyncEvent {
                        client_id,
                        component_id: component_kind,
                        entity,
                        authority_entity,
                        raw_data: payload,
                    },
                ),
            )
        },
        ReplicationMessage::Remove { component_kind, wire_ref } => {
            let entity = match crate::resolve::resolve_local_handle(store, &wire_ref) {
                Some(e) => e,
                None => {
                    return None;
                },
            };
            let authority_entity = crate::resolve::wire_root(&wire_ref);
            Some(
                RoutedMessage::Removal(
                    GotComponentToRemoveEvent {
                        client_id,
                        component_id: component_kind,
                        entity,
                        authority_entity,
                    },
                ),
            )
        },
    }
}

/// Drains one client's inbound frames into routed upsert and removal
/// events. A frame that does not parse or resolve is dropped and the
/// drain continues: the count of routed events plus dropped frames is the
/// frame count.
pub fn server_receive_components(store: &EntityStore, client_id: u64, frames: &Vec<Vec<u8>>) -> ((
    sync_out,
    remove_out,
): (Vec<GotComponentToSyncEvent>, Vec<GotComponentToRemoveEvent>))
    requires
        store.wf(),
    ensures
        forall|x: int|
            0 <= x < sync_out@.len() ==> sync_event_routed(store@, frames@, #[trigger] sync_out@[x])
                && sync_out@[x].client_id == client_id,
        forall|x: int|
            0 <= x < remove_out@.len() ==> remove_event_routed(
                store@,
                frames@,
                #[trigger] remove_out@[x],
            ) && remove_out@[x].client_id == client_id,
        forall|y: int|
            0 <= y < frames@.len() && route_is_upsert(store@, (#[trigger] frames@[y])@)
                ==> exists|x: int|
                0 <= x < sync_out@.len() && sync_matches_frame(
                    store@,
                    frames@[y]@,
                    #[trigger] sync_out@[x],
                ),
        forall|y: int|
            0 <= y < frames@.len() && route_is_removal(store@, (#[trigger] frames@[y])@)
                ==> exists|x: int|
                0 <= x < remove_out@.len() && remove_matches_frame(
                    store@,
                    frames@[y]@,
                    #[trigger] remove_out@[x],
                ),
{
    let n = frames.len();
    let mut sync_events: Vec<GotComponentToSyncEvent> = Vec::new();
    let mut remove_events: Vec<GotComponentToRemoveEvent> = Vec::new();
    let mut i: usize = 0;
    while i < n
        invariant
            i <= n,
            n == frames@.len(),
            store.wf(),
            forall|x: int|
                0 <= x < sync_events@.len() ==> sync_event_routed(
                    store@,
                    frames@,
                    #[trigger] sync_events@[x],
                ) && sync_events@[x].client_id == client_id,
            forall|x: int|
                0 <= x < remove_events@.len() ==> remove_event_routed(
                    store@,
                    frames@,
                    #[trigger] remove_events@[x],
                ) && remove_events@[x].client_id == client_id,
            forall|y: int|
                0 <= y < i && route_is_upsert(store@, (#[trigger] frames@[y])@) ==> exists|x: int|
                    0 <= x < sync_events@.len() && sync_matches_frame(
                        store@,
                        frames@[y]@,
                        #[trigger] sync_events@[x],
                    ),
            forall|y: int|
                0 <= y < i && route_is_removal(store@, (#[trigger] frames@[y])@) ==> exists|x: int|
                    0 <= x < remove_events@.len() && remove_matches_frame(
                        store@,
                        frames@[y]@,
                        #[trigger] remove_events@[x],
                    ),
        decreases n - i,
    {
        let ghost sync0 = sync_events@;
        let ghost remove0 = remove_events@;
        match server_route_frame(store, client_id, &frames[i]) {
            Some(RoutedMessage::Sync(ev)) => {
                proof {
                    assert(sync_matches_frame(store@, frames@[i as int]@, ev)) by {
                        reveal(sync_matches_frame);
                    }
                    assert(sync_event_routed(store@, frames@, ev)) by {
                        reveal(sync_event_routed);
                        reveal(sync_matches_frame);
                        assert(spec_route(store@, frames@[i as int]@) == Some(
                            (true, ev.component_id, ev.entity, ev.authority_entity, ev.raw_data@),
                        ));
                    }
                }
                sync_events.push(ev);
            },
            Some(RoutedMessage::Removal(ev)) => {
                proof {
                    assert(remove_matches_frame(store@, frames@[i as int]@, ev)) by {
                        reveal(remove_matches_frame);
                    }
                    assert(remove_event_routed(store@, frames@, ev)) by {
                        reveal(remove_event_routed);
                        reveal(remove_matches_frame);
                        assert(spec_route(store@, frames@[i as int]@) == Some(
                            (false, ev.component_id, ev.entity, ev.authority_entity,
                            Seq::<u8>::empty()),
                        ));
                    }
                }
                remove_events.push(ev);
            },
            None => {
                proof {
                    assert(!route_is_upsert(store@, frames@[i as int]@)) by {
                        reveal(route_is_upsert);
                    }
                    assert(!route_is_removal(store@, frames@[i as int]@)) by {
                        reveal(route_is_removal);
                    }
                }
            },
        }
        proof {
            if i < frames@.len() && route_is_upsert(store@, frames@[i as int]@) {
                assert(spec_route(store@, frames@[i as int]@) matches Some(t) && t.0) by {
                    reveal(route_is_upsert);
                }
            }
            if i < frames@.len() && route_is_removal(store@, frames@[i as int]@) {
                assert(spec_route(store@, frames@[i as int]@) matches Some(t) && !t.0) by {
                    reveal(route_is_removal);
                }
            }
            assert forall|y: int|
                0 <= y < i + 1 && route_is_upsert(store@, (#[trigger] frames@[y])@) implies exists|
            x: int|
                0 <= x < sync_events@.len() && sync_matches_frame(
                    store@,
                    frames@[y]@,
                    #[trigger] sync_events@[x],
                ) by {
                if y < i {
                    let x = choose|x: int|
                        0 <= x < sync0.len() && sync_matches_frame(
                            store@,
                            frames@[y]@,
                            #[trigger] sync0[x],
                        );
                    assert(sync_events@[x] == sync0[x]);
                } else {
                    assert(sync_matches_frame(store@, frames@[y]@, sync_events@[sync_events@.len()
                        - 1]));
                }
            }
            assert forall|y: int|
                0 <= y < i + 1 && route_is_removal(store@, (#[trigger] frames@[y])@) implies exists|
            x: int|
                0 <= x < remove_events@.len() && remove_matches_frame(
                    store@,
                    frames@[y]@,
                    #[trigger] remove_events@[x],
                ) by {
                if y < i {
                    let x = choose|x: int|
                        0 <= x < remove0.len() && remove_matches_frame(
                            store@,
                            frames@[y]@,
                            #[trigger] remove0[x],
                        );
                    assert(remove_events@[x] == remove0[x]);
                } else {
                    assert(remove_matches_frame(store@, frames@[y]@, remove_events@[
                        remove_events@.len() - 1]));
                }
            }
        }
        i = i + 1;
    }
    let result = (sync_events, remove_events);
    proof {
        assert forall|y: int|
            0 <= y < frames@.len() && route_is_upsert(store@, (#[trigger] frames@[y])@) implies
        exists|x: int|
            0 <= x < result.0@.len() && sync_matches_frame(
                store@,
                frames@[y]@,
                #[trigger] result.0@[x],
            ) by {
            let x = choose|x: int|
                0 <= x < result.0@.len() && sync_matches_frame(
                    store@,
                    frames@[y]@,
                    #[trigger] result.0@[x],
                );
            assert(sync_matches_frame(store@, frames@[y]@, result.0@[x]));
        }
        assert forall|y: int|
            0 <= y < frames@.len() && route_is_removal(store@, (#[trigger] frames@[y])@) implies
        exists|x: int|
            0 <= x < result.1@.len() && remove_matches_frame(
                store@,
                frames@[y]@,
                #[trigger] result.1@[x],
            ) by {
            let x = choose|x: int|
                0 <= x < result.1@.len() && remove_matches_frame(
                    store@,
                    frames@[y]@,
                    #[trigger] result.1@[x],
                );
            assert(remove_matches_frame(store@, frames@[y]@, result.1@[x]));
        }
    }
    result
}

/// The frame routes to an upsert.
#[verifier::opaque]
pub open spec fn route_is_upsert(ts: Seq<crate::store::EntityRecord>, s: Seq<u8>) -> bool {
    match spec_route(ts, s) {
        Some((is_upsert, ..)) => is_upsert,
        None => false,
    }
}

/// The frame routes to a removal.
#[verifier::opaque]
pub open spec fn route_is_removal(ts: Seq<crate::store::EntityRecord>, s: Seq<u8>) -> bool {
    match spec_route(ts, s) {
        Some((is_upsert, ..)) => !is_upsert,
        None => false,
    }
}

/// The event carries exactly what the frame routes to.
#[verifier::opaque]
pub open spec fn sync_matches_frame(
    ts: Seq<crate::store::EntityRecord>,
    s: Seq<u8>,
    ev: GotComponentToSyncEvent,
) -> bool {
    spec_route(ts, s) == Some((true, ev.component_id, ev.entity, ev.authority_entity, ev.raw_data@))
}

/// The event carries exactly what the frame routes to.
#[verifier::opaque]
pub open spec fn remove_matches_frame(
    ts: Seq<crate::store::EntityRecord>,
    s: Seq<u8>,
    ev: GotComponentToRemoveEvent,
) -> bool {
    spec_route(ts, s) == Some(
        (false, ev.component_id, ev.entity, ev.authority_entity, Seq::<u8>::empty()),
    )
}

/// The event was routed from some inbound frame.
#[verifier::opaque]
pub open spec fn sync_event_routed(
    ts: Seq<crate::store::EntityRecord>,
    frames: Seq<Vec<u8>>,
    ev: GotComponentToSyncEvent,
) -> bool {
    exists|y: int|
        0 <= y < frames.len() && #[trigger] spec_route(ts, frames[y]@) == Some(
            (true, ev.component_id, ev.entity, ev.authority_entity, ev.raw_data@),
        )
}

/// The event was routed from some inbound frame.
#[verifier::opaque]
pub open spec fn remove_event_routed(
    ts: Seq<crate::store::EntityRecord>,
    frames: Seq<Vec<u8>>,
    ev: GotComponentToRemoveEvent,
) -> bool {
    exists|y: int|
        0 <= y < frames.len() && #[trigger] spec_route(ts, frames[y]@) == Some(
            (false, ev.component_id, ev.entity, ev.authority_entity, Seq::<u8>::empty()),
        )
}


/// The kind is registered here.
pub open spec fn kind_registered(reg: Seq<crate::registry::ComponentRegistration>, k: u16) -> bool {
    policy_of(reg, k) is Some
}

/// The kind is registered and its policy lets a client write it.
pub open spec fn kind_client_writable(
    reg: Seq<crate::registry::ComponentRegistration>,
    k: u16,
) -> bool {
    match policy_of(reg, k) {
        Some(p) => client_rule(p) is Some,
        None => false,
    }
}

/// The kind is registered under the `Shared` policy.
pub open spec fn kind_shared(reg: Seq<crate::registry::ComponentRegistration>, k: u16) -> bool {
    match policy_of(reg, k) {
        Some(p) => p matches ComponentSyncPolicy::Shared { .. },
        None => false,
    }
}

/// The sender of a client write to this kind holds the authority its
/// policy demands.
pub open spec fn upsert_authority_passes(
    reg: Seq<crate::registry::ComponentRegistration>,
    lobby: Seq<crate::authority::LobbyRow>,
    pilots: Seq<crate::authority::PilotRow>,
    client_id: u64,
    authority_entity: u64,
    k: u16,
) -> bool {
    match policy_of(reg, k) {
        Some(p) => match client_rule(p) {
            Some(rule) => authority_ok(rule, lobby, pilots, client_id, authority_entity),
            None => false,
        },
        None => false,
    }
}

/// The component of this kind on this entity now holds exactly these
/// bytes, freshly marked changed; nothing else moved.
pub open spec fn upsert_applied(
    t0: Seq<crate::store::EntityRecord>,
    t1: Seq<crate::store::EntityRecord>,
    l: u64,
    k: u16,
    pv: Seq<u8>,
) -> bool {
    &&& comp_data(t1, l, k) == Some(pv)
    &&& comp_changed(t1, l, k)
    &&& forall|h2: u64, k2: u16|
        !(h2 == l && k2 == k) ==> comp_data(t1, h2, k2) == comp_data(t0, h2, k2) && comp_changed(
            t1,
            h2,
            k2,
        ) == comp_changed(t0, h2, k2)
    &&& forall|h2: u64| has_entity(t1, h2) <==> has_entity(t0, h2)
    &&& crate::store::others_unchanged(t0, t1, l)
    &&& has_entity(t0, l) ==> crate::store::same_but_components(ent(t0, l), ent(t1, l))
}

/// Applies one client-sent component value on the authoritative side:
/// unknown kinds, kinds the policy reserves to the authoritative side,
/// and writes without the demanded authority are dropped with the store
/// untouched; a `Shared` value bit-for-bit equal to the one already held
/// is suppressed without re-triggering change detection; everything else
/// is applied.
pub fn server_apply_upsert(
    store: &mut EntityStore,
    lobby: &ServerLobby,
    pilots: &Pilots,
    registry: &ComponentRegistry,
    ev: &GotComponentToSyncEvent,
) -> (r: ApplyOutcome)
    requires
        old(store).wf(),
        lobby.wf(),
        pilots.wf(),
        registry.wf(),
    ensures
        final(store).wf(),
        final(store).spec_next_handle() == old(store).spec_next_handle(),
        final(store).removed() == old(store).removed(),
        !kind_registered(registry@, ev.component_id) ==> r == ApplyOutcome::DroppedUnknownKind
            && final(store)@ == old(store)@,
        kind_registered(registry@, ev.component_id) && !kind_client_writable(
            registry@,
            ev.component_id,
        ) ==> r == ApplyOutcome::DroppedPolicy && final(store)@ == old(store)@,
        kind_client_writable(registry@, ev.component_id) && !upsert_authority_passes(
            registry@,
            lobby@,
            pilots@,
            ev.client_id,
            ev.authority_entity,
            ev.component_id,
        ) ==> r == ApplyOutcome::DroppedAuthority && final(store)@ == old(store)@,
        kind_client_writable(registry@, ev.component_id) && upsert_authority_passes(
            registry@,
            lobby@,
            pilots@,
            ev.client_id,
            ev.authority_entity,
            ev.component_id,
        ) ==> {
            &&& !has_entity(old(store)@, ev.entity) ==> r == ApplyOutcome::DroppedUnresolvable
                && final(store)@ == old(store)@
            &&& (has_entity(old(store)@, ev.entity) && kind_shared(registry@, ev.component_id)
                && comp_data(old(store)@, ev.entity, ev.component_id) == Some(ev.raw_data@)) ==> r
                == ApplyOutcome::SuppressedEcho && final(store)@ == old(store)@
            &&& (has_entity(old(store)@, ev.entity) && !(kind_shared(registry@, ev.component_id)
                && comp_data(old(store)@, ev.entity, ev.component_id) == Some(ev.raw_data@))) ==> r
                == ApplyOutcome::Applied && upsert_applied(
                old(store)@,
                final(store)@,
                ev.entity,
                ev.component_id,
                ev.raw_data@,
            )
        },
{
    let policy = match registry.policy_for(ev.component_id) {
        Some(p) => p,
        None => {
            return ApplyOutcome::DroppedUnknownKind;
        },
    };
    let rule = match policy {
        ComponentSyncPolicy::AuthoritativeSide => {
            return ApplyOutcome::DroppedPolicy;
        },
        ComponentSyncPolicy::ClientOwned { rule } => rule,
        ComponentSyncPolicy::Shared { rule } => rule,
    };
    if !validate_authority(rule, lobby, pilots, ev.client_id, ev.authority_entity) {
        return ApplyOutcome::DroppedAuthority;
    }
    if !store.has(ev.entity) {
        return ApplyOutcome::DroppedUnresolvable;
    }
    let is_shared = match policy {
        ComponentSyncPolicy::Shared { .. } => true,
        _ => false,
    };
    if is_shared {
        let equal = match store.get_component(ev.entity, ev.component_id) {
            Some(held) => eq_bytes(held, &ev.raw_data),
            None => false,
        };
        if equal {
            return ApplyOutcome::SuppressedEcho;
        }
    }
    let data = copy_bytes(&ev.raw_data);
    store.upsert_component(ev.entity, ev.component_id, data);
    ApplyOutcome::Applied
}

/// Applies one client-sent component removal on the authoritative side,
/// under the same policy and authority gating as an upsert. A missing
/// entity or missing component is a silent no-op; an applied removal is
/// logged for re-broadcast.
pub fn server_apply_remove(
    store: &mut EntityStore,
    lobby: &ServerLobby,
    pilots: &Pilots,
    registry: &ComponentRegistry,
    ev: &GotComponentToRemoveEvent,
) -> (r: ApplyOutcome)
    requires
        old(store).wf(),
        lobby.wf(),
        pilots.wf(),
        registry.wf(),
    ensures
        final(store).wf(),
        final(store).spec_next_handle() == old(store).spec_next_handle(),
        !kind_registered(registry@, ev.component_id) ==> r == ApplyOutcome::DroppedUnknownKind
            && final(store)@ == old(store)@ && final(store).removed() == old(store).removed(),
        kind_registered(registry@, ev.component_id) && !kind_client_writable(
            registry@,
            ev.component_id,
        ) ==> r == ApplyOutcome::DroppedPolicy && final(store)@ == old(store)@
            && final(store).removed() == old(store).removed(),
        kind_client_writable(registry@, ev.component_id) && !upsert_authority_passes(
            registry@,
            lobby@,
            pilots@,
            ev.client_id,
            ev.authority_entity,
            ev.component_id,
        ) ==> r == ApplyOutcome::DroppedAuthority && final(store)@ == old(store)@
            && final(store).removed() == old(store).removed(),
        kind_client_writable(registry@, ev.component_id) && upsert_authority_passes(
            registry@,
            lobby@,
            pilots@,
            ev.client_id,
            ev.authority_entity,
            ev.component_id,
        ) ==> {
            &&& r == ApplyOutcome::Applied
            &&& comp_data(final(store)@, ev.entity, ev.component_id) is None
            &&& forall|h2: u64, k2: u16|
                !(h2 == ev.entity && k2 == ev.component_id) ==> comp_data(final(store)@, h2, k2)
                    == comp_data(old(store)@, h2, k2) && comp_changed(final(store)@, h2, k2)
                    == comp_changed(old(store)@, h2, k2)
            &&& forall|h2: u64| has_entity(final(store)@, h2) <==> has_entity(old(store)@, h2)
            &&& crate::store::others_unchanged(old(store)@, final(store)@, ev.entity)
            &&& comp_data(old(store)@, ev.entity, ev.component_id) is Some
                ==> final(store).removed() == old(store).removed().push(
                crate::store::RemovedEntry { entity: ev.entity, kind: ev.component_id },
            )
            &&& comp_data(old(store)@, ev.entity, ev.component_id) is None
                ==> final(store)@ == old(store)@ && final(store).removed() == old(store).removed()
        },
{
    let policy = match registry.policy_for(ev.component_id) {
        Some(p) => p,
        None => {
            return ApplyOutcome::DroppedUnknownKind;
        },
    };
    let rule = match policy {
        ComponentSyncPolicy::AuthoritativeSide => {
            return ApplyOutcome::DroppedPolicy;
        },
        ComponentSyncPolicy::ClientOwned { rule } => rule,
        ComponentSyncPolicy::Shared { rule } => rule,
    };
    if !validate_authority(rule, lobby, pilots, ev.client_id, ev.authority_entity) {
        return ApplyOutcome::DroppedAuthority;
    }
    store.remove_component(ev.entity, ev.component_id);
    ApplyOutcome::Applied
}


/// The resolved handle of a wire reference, without creation.
pub open spec fn ro_val(
    ts: Seq<crate::store::EntityRecord>,
    tt: Seq<crate::identity::IdentityRow>,
    wr: WireEntityRef,
) -> u64 {
    match crate::resolve::resolve_ro(ts, tt, wr) {
        Ok(l) => l,
        Err(_) => 0,
    }
}

/// The reference resolves without creation.
pub open spec fn ro_ok(
    ts: Seq<crate::store::EntityRecord>,
    tt: Seq<crate::identity::IdentityRow>,
    wr: WireEntityRef,
) -> bool {
    crate::resolve::resolve_ro(ts, tt, wr) is Ok
}

/// Resolving this reference would create a local stub: a direct
/// reference whose origin has no identity row yet.
pub open spec fn needs_creation(
    tt: Seq<crate::identity::IdentityRow>,
    wr: WireEntityRef,
) -> bool {
    crate::resolve::is_direct(wr) && !crate::identity::has_origin(
        tt,
        crate::resolve::direct_origin(wr),
    )
}

/// A first sighting: a fresh stub entity `l` mirroring the origin, with
/// the received value as its only component; nothing else moved.
pub open spec fn created_and_upserted(
    t0: Seq<crate::store::EntityRecord>,
    t1: Seq<crate::store::EntityRecord>,
    l: u64,
    k: u16,
    pv: Seq<u8>,
) -> bool {
    &&& !has_entity(t0, l)
    &&& has_entity(t1, l)
    &&& forall|h2: u64| has_entity(t1, h2) <==> (has_entity(t0, h2) || h2 == l)
    &&& crate::store::others_unchanged(t0, t1, l)
    &&& comp_data(t1, l, k) == Some(pv)
    &&& comp_changed(t1, l, k)
    &&& forall|k2: u16| k2 != k ==> comp_data(t1, l, k2) is None
    &&& crate::store::stage_of(t1, l) == crate::loading::LoadStage::Stub
    &&& crate::store::parent_link(t1, l) is None
    &&& sendable(t1, l)
    &&& forall|h2: u64, k2: u16|
        h2 != l ==> comp_data(t1, h2, k2) == comp_data(t0, h2, k2) && comp_changed(t1, h2, k2)
            == comp_changed(t0, h2, k2)
}

/// Applies one message arriving from the authoritative side. An `Upsert`
/// resolves with creation rights: a direct reference sighted for the
/// first time creates a local stub and its identity row. A `Remove`
/// resolves without creation and detaches the component if present. A
/// `Shared` value bit-for-bit equal to the one already held is suppressed
/// without re-triggering change detection. Unknown kinds and unresolvable
/// references drop the single message with nothing touched.
pub fn client_apply_message(
    store: &mut EntityStore,
    table: &mut crate::identity::EntityIdentityTable,
    registry: &ComponentRegistry,
    msg: &ReplicationMessage,
) -> (r: ApplyOutcome)
    requires
        old(store).wf(),
        old(table).wf(),
        registry.wf(),
        old(store).spec_next_handle() < u64::MAX,
        crate::identity::locals_bounded(old(table)@, old(store).spec_next_handle()),
    ensures
        final(store).wf(),
        final(table).wf(),
        crate::identity::locals_bounded(final(table)@, final(store).spec_next_handle()),
        final(store).removed().len() >= old(store).removed().len(),
        !kind_registered(registry@, crate::wire::message_parts(*msg).1) ==> r
            == ApplyOutcome::DroppedUnknownKind && final(store)@ == old(store)@ && final(table)@
            == old(table)@,
        // An upsert under a registered kind:
        (kind_registered(registry@, crate::wire::message_parts(*msg).1) && msg matches
        ReplicationMessage::Upsert { component_kind, wire_ref, payload }) ==> {
            let wr = crate::wire::message_parts(*msg).2;
            let k = crate::wire::message_parts(*msg).1;
            let pv = crate::wire::message_parts(*msg).3;
            &&& needs_creation(old(table)@, wr) ==> {
                let l = old(store).spec_next_handle();
                &&& r == ApplyOutcome::Applied
                &&& created_and_upserted(old(store)@, final(store)@, l, k, pv)
                &&& final(table)@ == old(table)@.push(
                    crate::identity::IdentityRow {
                        origin_handle: crate::resolve::direct_origin(wr),
                        local_handle: l,
                    },
                )
                &&& final(store).spec_next_handle() == l + 1
            }
            &&& (!needs_creation(old(table)@, wr) && !ro_ok(old(store)@, old(table)@, wr)) ==> r
                == ApplyOutcome::DroppedUnresolvable && final(store)@ == old(store)@
                && final(table)@ == old(table)@
            &&& (!needs_creation(old(table)@, wr) && ro_ok(old(store)@, old(table)@, wr)) ==> {
                let l = ro_val(old(store)@, old(table)@, wr);
                &&& final(table)@ == old(table)@
                &&& !has_entity(old(store)@, l) ==> r == ApplyOutcome::DroppedUnresolvable
                    && final(store)@ == old(store)@
                &&& (has_entity(old(store)@, l) && kind_shared(registry@, k) && comp_data(
                    old(store)@,
                    l,
                    k,
                ) == Some(pv)) ==> r == ApplyOutcome::SuppressedEcho
                    && final(store)@ == old(store)@
                &&& (has_entity(old(store)@, l) && !(kind_shared(registry@, k) && comp_data(
                    old(store)@,
                    l,
                    k,
                ) == Some(pv))) ==> r == ApplyOutcome::Applied && upsert_applied(
                    old(store)@,
                    final(store)@,
                    l,
                    k,
                    pv,
                )
            }
        },
        // A removal under a registered kind resolves without creation:
        (kind_registered(registry@, crate::wire::message_parts(*msg).1) && msg matches
        ReplicationMessage::Remove { component_kind, wire_ref }) ==> {
            let wr = crate::wire::message_parts(*msg).2;
            let k = crate::wire::message_parts(*msg).1;
            &&& final(table)@ == old(table)@
            &&& !ro_ok(old(store)@, old(table)@, wr) ==> r == ApplyOutcome::DroppedUnresolvable
                && final(store)@ == old(store)@
            &&& ro_ok(old(store)@, old(table)@, wr) ==> {
                let l = ro_val(old(store)@, old(table)@, wr);
                &&& r == ApplyOutcome::Applied
                &&& comp_data(final(store)@, l, k) is None
                &&& forall|h2: u64, k2: u16|
                    !(h2 == l && k2 == k) ==> comp_data(final(store)@, h2, k2) == comp_data(
                        old(store)@,
                        h2,
                        k2,
                    ) && comp_changed(final(store)@, h2, k2) == comp_changed(old(store)@, h2, k2)
                &&& forall|h2: u64| has_entity(final(store)@, h2) <==> has_entity(old(store)@, h2)
                &&& crate::store::others_unchanged(old(store)@, final(store)@, l)
                &&& comp_data(old(store)@, l, k) is None ==> final(store)@ == old(store)@
            }
        },
{
    match msg {
        ReplicationMessage::Upsert { component_kind, wire_ref, payload } => {
            if registry.policy_for(*component_kind).is_none() {
                return ApplyOutcome::DroppedUnknownKind;
            }
            let is_shared = match registry.policy_for(*component_kind) {
                Some(ComponentSyncPolicy::Shared { .. }) => true,
                _ => false,
            };
            let l = match crate::resolve::resolve_for_receive(store, table, wire_ref, true) {
                Ok(l) => l,
                Err(_) => {
                    return ApplyOutcome::DroppedUnresolvable;
                },
            };
            let ghost created = needs_creation(old(table)@, *wire_ref);
            if !store.has(l) {
                proof {
                    assert(!created);
                }
                return ApplyOutcome::DroppedUnresolvable;
            }
            if is_shared {
                let equal = match store.get_component(l, *component_kind) {
                    Some(held) => eq_bytes(held, payload),
                    None => false,
                };
                if equal {
                    proof {
                        assert(!created);
                    }
                    return ApplyOutcome::SuppressedEcho;
                }
            }
            let ghost tmid = store@;
            let data = copy_bytes(payload);
            store.upsert_component(l, *component_kind, data);
            proof {
                if created {
                    assert(crate::store::same_but_components(ent(tmid, l), ent(store@, l)));
                    assert(ent(store@, l).no_send == ent(tmid, l).no_send);
                    assert(sendable(store@, l));
                }
            }
            ApplyOutcome::Applied
        },
        ReplicationMessage::Remove { component_kind, wire_ref } => {
            if registry.policy_for(*component_kind).is_none() {
                return ApplyOutcome::DroppedUnknownKind;
            }
            let l = match crate::resolve::resolve_no_create(store, table, wire_ref) {
                Ok(l) => l,
                Err(_) => {
                    return ApplyOutcome::DroppedUnresolvable;
                },
            };
            store.remove_component(l, *component_kind);
            ApplyOutcome::Applied
        },
    }
}


/// The kind is registered and its policy makes this side a sender.
pub open spec fn kind_side_sends(
    reg: Seq<crate::registry::ComponentRegistration>,
    from_server: bool,
    k: u16,
) -> bool {
    match policy_of(reg, k) {
        Some(p) => if from_server {
            server_sends(p)
        } else {
            client_sends(p)
        },
        None => false,
    }
}

/// Sender side of one tick for upserts: drains every changed component
/// this side sends into a message carrying its wire reference and current
/// bytes, and clears exactly the drained changed flags. The second list
/// names the (entity, kind) pair behind each message, in order.
pub fn send_changed_components(
    store: &mut EntityStore,
    registry: &ComponentRegistry,
    from_server: bool,
) -> (r: (Vec<ReplicationMessage>, Vec<(u64, u16)>))
    requires
        old(store).wf(),
        registry.wf(),
    ensures
        final(store).wf(),
        final(store).spec_next_handle() == old(store).spec_next_handle(),
        final(store).removed() == old(store).removed(),
        forall|h: u64, k: u16| comp_data(final(store)@, h, k) == comp_data(old(store)@, h, k),
        forall|h: u64, k: u16|
            comp_changed(final(store)@, h, k) == (comp_changed(old(store)@, h, k) && !(sendable(
                old(store)@,
                h,
            ) && kind_side_sends(registry@, from_server, k))),
        forall|h: u64| has_entity(final(store)@, h) <==> has_entity(old(store)@, h),
        forall|h: u64|
            has_entity(old(store)@, h) ==> crate::store::same_but_components(
                ent(old(store)@, h),
                ent(final(store)@, h),
            ),
        r.0@.len() == r.1@.len(),
        forall|x: int|
            0 <= x < r.1@.len() ==> pair_ok(old(store)@, #[trigger] r.1@[x]) && kind_side_sends(
                registry@,
                from_server,
                r.1@[x].1,
            ) && resolve_send(old(store)@, r.1@[x].0) is Some && comp_data(
                old(store)@,
                r.1@[x].0,
                r.1@[x].1,
            ) is Some,
        forall|x: int|
            0 <= x < r.0@.len() ==> crate::wire::message_parts(#[trigger] r.0@[x]) == (
                0u8,
                r.1@[x].1,
                resolve_send(old(store)@, r.1@[x].0).unwrap(),
                comp_data(old(store)@, r.1@[x].0, r.1@[x].1).unwrap(),
            ) && crate::wire::wf_message(r.0@[x]),
        forall|a: int, b: int| 0 <= a < b < r.1@.len() ==> r.1@[a] != r.1@[b],
        forall|h: u64, k: u16|
            comp_changed(old(store)@, h, k) && sendable(old(store)@, h) && kind_side_sends(
                registry@,
                from_server,
                k,
            ) && resolve_send(old(store)@, h) is Some ==> r.1@.contains((h, k)),
{
    let ghost t0 = store@;
    let pairs = changed_components(store);
    let n = pairs.len();
    let mut msgs: Vec<ReplicationMessage> = Vec::new();
    let mut sent: Vec<(u64, u16)> = Vec::new();
    let mut i: usize = 0;
    while i < n
        invariant
            i <= n,
            n == pairs@.len(),
            t0 == store@,
            store.wf(),
            registry.wf(),
            forall|x: int| 0 <= x < pairs@.len() ==> pair_ok(t0, #[trigger] pairs@[x]),
            forall|h: u64, k: u16|
                comp_changed(t0, h, k) && sendable(t0, h) ==> pairs@.contains((h, k)),
            forall|a: int, b: int| 0 <= a < b < pairs@.len() ==> pairs@[a] != pairs@[b],
            msgs@.len() == sent@.len(),
            forall|x: int|
                0 <= x < sent@.len() ==> pair_ok(t0, #[trigger] sent@[x]) && kind_side_sends(
                    registry@,
                    from_server,
                    sent@[x].1,
                ) && resolve_send(t0, sent@[x].0) is Some && comp_data(
                    t0,
                    sent@[x].0,
                    sent@[x].1,
                ) is Some,
            forall|x: int|
                0 <= x < msgs@.len() ==> crate::wire::message_parts(#[trigger] msgs@[x]) == (
                    0u8,
                    sent@[x].1,
                    resolve_send(t0, sent@[x].0).unwrap(),
                    comp_data(t0, sent@[x].0, sent@[x].1).unwrap(),
                ) && crate::wire::wf_message(msgs@[x]),
            forall|x: int| #![trigger sent@[x]]
                0 <= x < sent@.len() ==> exists|y: int| 0 <= y < i && sent@[x] == #[trigger] pairs@[y],
            forall|a: int, b: int| 0 <= a < b < sent@.len() ==> sent@[a] != sent@[b],
            forall|y: int|
                0 <= y < i && kind_side_sends(registry@, from_server, (#[trigger] pairs@[y]).1)
                    && resolve_send(t0, pairs@[y].0) is Some ==> sent@.contains(pairs@[y]),
        decreases n - i,
    {
        let (h, k) = pairs[i];
        let sends = match registry.policy_for(k) {
            Some(p) => {
                let sp = match p {
                    ComponentSyncPolicy::AuthoritativeSide => from_server,
                    ComponentSyncPolicy::ClientOwned { .. } => !from_server,
                    ComponentSyncPolicy::Shared { .. } => true,
                };
                sp
            },
            None => false,
        };
        if sends {
            match build_component_message(store, h, k) {
                Some(m) => {
                    let ghost sent0 = sent@;
                    let ghost msgs0 = msgs@;
                    proof {
                        if sent0.contains((h, k)) {
                            let x = choose|x: int| 0 <= x < sent0.len() && sent0[x] == (h, k);
                            let y = choose|y: int| 0 <= y < i && sent0[x] == pairs@[y];
                            assert(pairs@[y] == pairs@[i as int]);
                        }
                    }
                    msgs.push(m);
                    sent.push((h, k));
                    proof {
                        assert forall|x: int| #![trigger sent@[x]]
                            0 <= x < sent@.len() implies exists|y: int|
                            0 <= y < i + 1 && sent@[x] == #[trigger] pairs@[y] by {
                            if x < sent0.len() {
                                assert(sent@[x] == sent0[x]);
                                let y = choose|y: int| 0 <= y < i && sent0[x] == pairs@[y];
                                assert(0 <= y < i + 1 && sent@[x] == pairs@[y]);
                            } else {
                                assert(sent@[x] == pairs@[i as int]);
                            }
                        }
                        assert forall|y: int|
                            0 <= y < i + 1 && kind_side_sends(
                                registry@,
                                from_server,
                                (#[trigger] pairs@[y]).1,
                            ) && resolve_send(t0, pairs@[y].0) is Some implies sent@.contains(
                            pairs@[y],
                        ) by {
                            if y < i {
                                assert(sent0.contains(pairs@[y]));
                                let x = choose|x: int|
                                    0 <= x < sent0.len() && sent0[x] == pairs@[y];
                                assert(sent@[x] == pairs@[y]);
                            } else {
                                assert(sent@[sent@.len() - 1] == pairs@[y]);
                            }
                        }
                    }
                },
                None => {
                    proof {
                        assert(comp_data(t0, h, k) is Some);
                        assert forall|y: int|
                            0 <= y < i + 1 && kind_side_sends(
                                registry@,
                                from_server,
                                (#[trigger] pairs@[y]).1,
                            ) && resolve_send(t0, pairs@[y].0) is Some implies sent@.contains(
                            pairs@[y],
                        ) by {
                            if y == i {
                                assert(resolve_send(t0, h) is None);
                            }
                        }
                    }
                },
            }
        } else {
            proof {
                assert forall|y: int|
                    0 <= y < i + 1 && kind_side_sends(
                        registry@,
                        from_server,
                        (#[trigger] pairs@[y]).1,
                    ) && resolve_send(t0, pairs@[y].0) is Some implies sent@.contains(
                    pairs@[y],
                ) by {
                    if y == i {
                        assert(!kind_side_sends(registry@, from_server, k));
                    }
                }
            }
        }
        i = i + 1;
    }
    // Clear exactly the drained changed flags.
    let mut j: usize = 0;
    while j < n
        invariant
            j <= n,
            n == pairs@.len(),
            store.wf(),
            registry.wf(),
            store.spec_next_handle() == old(store).spec_next_handle(),
            store.removed() == old(store).removed(),
            forall|x: int| 0 <= x < pairs@.len() ==> pair_ok(t0, #[trigger] pairs@[x]),
            forall|h: u64, k: u16|
                comp_changed(t0, h, k) && sendable(t0, h) ==> pairs@.contains((h, k)),
            forall|h: u64, k: u16| comp_data(store@, h, k) == comp_data(t0, h, k),
            forall|h: u64, k: u16|
                comp_changed(store@, h, k) == (comp_changed(t0, h, k) && !exists|y: int|
                    0 <= y < j && pairs@[y] == (h, k) && kind_side_sends(
                        registry@,
                        from_server,
                        k,
                    )),
            forall|h: u64| has_entity(store@, h) <==> has_entity(t0, h),
            forall|h: u64|
                has_entity(t0, h) ==> crate::store::same_but_components(
                    ent(t0, h),
                    ent(store@, h),
                ),
        decreases n - j,
    {
        let (h, k) = pairs[j];
        let sends = match registry.policy_for(k) {
            Some(p) => {
                let sp = match p {
                    ComponentSyncPolicy::AuthoritativeSide => from_server,
                    ComponentSyncPolicy::ClientOwned { .. } => !from_server,
                    ComponentSyncPolicy::Shared { .. } => true,
                };
                sp
            },
            None => false,
        };
        let ghost tprev = store@;
        if sends {
            store.clear_changed(h, k);
        }
        proof {
            assert forall|h2: u64, k2: u16|
                comp_changed(store@, h2, k2) == (comp_changed(t0, h2, k2) && !exists|y: int|
                    0 <= y < j + 1 && pairs@[y] == (h2, k2) && kind_side_sends(
                        registry@,
                        from_server,
                        k2,
                    )) by {
                if h2 == h && k2 == k && sends {
                    assert(pairs@[j as int] == (h2, k2));
                    assert(!comp_changed(store@, h2, k2));
                } else {
                    assert(comp_changed(store@, h2, k2) == comp_changed(tprev, h2, k2));
                    assert forall|y: int|
                        0 <= y < j + 1 && pairs@[y] == (h2, k2) && kind_side_sends(
                            registry@,
                            from_server,
                            k2,
                        ) implies y < j by {
                        if y == j {
                            assert(pairs@[j as int] == (h, k));
                        }
                    }
                }
            }
        }
        j = j + 1;
    }
    proof {
        assert forall|h: u64, k: u16|
            comp_changed(store@, h, k) == (comp_changed(t0, h, k) && !(sendable(t0, h)
                && kind_side_sends(registry@, from_server, k))) by {
            if comp_changed(t0, h, k) && sendable(t0, h) && kind_side_sends(
                registry@,
                from_server,
                k,
            ) {
                assert(pairs@.contains((h, k)));
                let y = choose|y: int| 0 <= y < pairs@.len() && pairs@[y] == (h, k);
                assert(0 <= y < n && pairs@[y] == (h, k) && kind_side_sends(
                    registry@,
                    from_server,
                    k,
                ));
            } else if comp_changed(t0, h, k) {
                if exists|y: int|
                    0 <= y < n && pairs@[y] == (h, k) && kind_side_sends(
                        registry@,
                        from_server,
                        k,
                    ) {
                    let y = choose|y: int|
                        0 <= y < n && pairs@[y] == (h, k) && kind_side_sends(
                            registry@,
                            from_server,
                            k,
                        );
                    assert(pair_ok(t0, pairs@[y]));
                    assert(sendable(t0, h));
                    assert(!(sendable(t0, h) && kind_side_sends(registry@, from_server, k)));
                    assert(false);
                }
            }
        }
    }
    (msgs, sent)
}

/// Sender side of one tick for removals: drains the log of detached
/// components into `Remove` messages for the kinds this side sends,
/// skipping entries whose entity no longer resolves (its despawn is
/// announced separately).
pub fn sync_removed_components(
    store: &mut EntityStore,
    registry: &ComponentRegistry,
    from_server: bool,
) -> (r: Vec<ReplicationMessage>)
    requires
        old(store).wf(),
        registry.wf(),
    ensures
        final(store).wf(),
        final(store)@ == old(store)@,
        final(store).spec_next_handle() == old(store).spec_next_handle(),
        final(store).removed().len() == 0,
        forall|x: int|
            0 <= x < r@.len() ==> removal_announced(
                old(store)@,
                old(store).removed(),
                registry@,
                from_server,
                #[trigger] r@[x],
            ),
        forall|y: int|
            0 <= y < old(store).removed().len() && kind_side_sends(
                registry@,
                from_server,
                (#[trigger] old(store).removed()[y]).kind,
            ) && resolve_send(old(store)@, old(store).removed()[y].entity) is Some ==> exists|x: int|
                0 <= x < r@.len() && crate::wire::message_parts(#[trigger] r@[x]) == (
                    1u8,
                    old(store).removed()[y].kind,
                    resolve_send(old(store)@, old(store).removed()[y].entity).unwrap(),
                    Seq::<u8>::empty(),
                ),
{
    let ghost t0 = old(store)@;
    let ghost log = old(store).removed();
    let entries = store.take_removed();
    let n = entries.len();
    let mut out: Vec<ReplicationMessage> = Vec::new();
    let mut i: usize = 0;
    while i < n
        invariant
            i <= n,
            n == entries@.len(),
            entries@ == log,
            t0 == store@,
            store.wf(),
            registry.wf(),
            forall|x: int|
                0 <= x < out@.len() ==> removal_announced(
                    t0,
                    log,
                    registry@,
                    from_server,
                    #[trigger] out@[x],
                ),
            forall|y: int|
                0 <= y < i && kind_side_sends(registry@, from_server, (#[trigger] log[y]).kind)
                    && resolve_send(t0, log[y].entity) is Some ==> exists|x: int|
                    0 <= x < out@.len() && crate::wire::message_parts(#[trigger] out@[x]) == (
                        1u8,
                        log[y].kind,
                        resolve_send(t0, log[y].entity).unwrap(),
                        Seq::<u8>::empty(),
                    ),
        decreases n - i,
    {
        let entry = entries[i];
        let sends = match registry.policy_for(entry.kind) {
            Some(p) => {
                let sp = match p {
                    ComponentSyncPolicy::AuthoritativeSide => from_server,
                    ComponentSyncPolicy::ClientOwned { .. } => !from_server,
                    ComponentSyncPolicy::Shared { .. } => true,
                };
                sp
            },
            None => false,
        };
        if sends {
            match resolve_for_send(store, entry.entity) {
                Some(wire_ref) => {
                    let ghost out0 = out@;
                    let m = ReplicationMessage::Remove { component_kind: entry.kind, wire_ref };
                    proof {
                        assert(crate::wire::message_parts(m) == (
                            1u8,
                            log[i as int].kind,
                            resolve_send(t0, log[i as int].entity).unwrap(),
                            Seq::<u8>::empty(),
                        ));
                        assert(removal_announced(t0, log, registry@, from_server, m));
                    }
                    out.push(m);
                    proof {
                        assert forall|y: int|
                            0 <= y < i + 1 && kind_side_sends(
                                registry@,
                                from_server,
                                (#[trigger] log[y]).kind,
                            ) && resolve_send(t0, log[y].entity) is Some implies exists|x: int|
                            0 <= x < out@.len() && crate::wire::message_parts(#[trigger] out@[x])
                                == (
                                1u8,
                                log[y].kind,
                                resolve_send(t0, log[y].entity).unwrap(),
                                Seq::<u8>::empty(),
                            ) by {
                            if y < i {
                                let x = choose|x: int|
                                    0 <= x < out0.len() && crate::wire::message_parts(
                                        #[trigger] out0[x],
                                    ) == (
                                        1u8,
                                        log[y].kind,
                                        resolve_send(t0, log[y].entity).unwrap(),
                                        Seq::<u8>::empty(),
                                    );
                                assert(out@[x] == out0[x]);
                            } else {
                                assert(crate::wire::message_parts(out@[out@.len() - 1]) == (
                                    1u8,
                                    log[y].kind,
                                    resolve_send(t0, log[y].entity).unwrap(),
                                    Seq::<u8>::empty(),
                                ));
                            }
                        }
                    }
                },
                None => {},
            }
        }
        i = i + 1;
    }
    out
}

/// The message announces some logged removal this side sends, faithfully.
pub open spec fn removal_announced(
    t: Seq<crate::store::EntityRecord>,
    log: Seq<crate::store::RemovedEntry>,
    reg: Seq<crate::registry::ComponentRegistration>,
    from_server: bool,
    m: ReplicationMessage,
) -> bool {
    exists|y: int|
        0 <= y < log.len() && kind_side_sends(reg, from_server, (#[trigger] log[y]).kind)
            && resolve_send(t, log[y].entity) is Some && crate::wire::message_parts(m) == (
            1u8,
            log[y].kind,
            resolve_send(t, log[y].entity).unwrap(),
            Seq::<u8>::empty(),
        )
}

/// Idempotence of apply: applying the same upsert twice in a row leaves
/// the entity's component state identical to applying it once — every
/// component value, every changed flag, every live handle and every
/// untouched entity reads the same, whether the second application
/// overwrote the value or was suppressed as an echo.
pub proof fn lemma_apply_idempotent(
    t0: Seq<crate::store::EntityRecord>,
    t1: Seq<crate::store::EntityRecord>,
    t2: Seq<crate::store::EntityRecord>,
    l: u64,
    k: u16,
    pv: Seq<u8>,
)
    requires
        upsert_applied(t0, t1, l, k, pv),
        upsert_applied(t1, t2, l, k, pv) || t2 == t1,
    ensures
        forall|h2: u64, k2: u16| comp_data(t2, h2, k2) == comp_data(t1, h2, k2),
        forall|h2: u64, k2: u16| comp_changed(t2, h2, k2) == comp_changed(t1, h2, k2),
        forall|h2: u64| has_entity(t2, h2) <==> has_entity(t1, h2),
        forall|h2: u64| h2 != l && has_entity(t1, h2) ==> ent(t2, h2) == ent(t1, h2),
{
    if t2 != t1 {
        // The second application finds the value already in place: the
        // overwritten component reads the same, and nothing else moved.
        assert forall|h2: u64, k2: u16|
            comp_data(t2, h2, k2) == comp_data(t1, h2, k2) && comp_changed(t2, h2, k2)
                == comp_changed(t1, h2, k2) by {
            if h2 == l && k2 == k {
                assert(comp_data(t1, l, k) == Some(pv) && comp_data(t2, l, k) == Some(pv));
            }
        }
    }
}

/// Echo suppression: a suppressed echo leaves the component unmarked, and
/// the sender's drain lists only marked components — so no message goes
/// back for the unchanged value.
pub proof fn lemma_echo_suppression(
    t: Seq<crate::store::EntityRecord>,
    pairs: Seq<(u64, u16)>,
    e: u64,
    k: u16,
)
    requires
        !comp_changed(t, e, k),
        forall|x: int| 0 <= x < pairs.len() ==> pair_ok(t, #[trigger] pairs[x]),
    ensures
        !pairs.contains((e, k)),
{
    if pairs.contains((e, k)) {
        let x = choose|x: int| 0 <= x < pairs.len() && pairs[x] == (e, k);
        assert(pair_ok(t, pairs[x]));
    }
}


/// The kind is registered and the authoritative side sends it.
pub open spec fn kind_server_sent(
    reg: Seq<crate::registry::ComponentRegistration>,
    k: u16,
) -> bool {
    match policy_of(reg, k) {
        Some(p) => server_sends(p),
        None => false,
    }
}

/// The message faithfully announces one of the entity's current
/// server-sent components.
pub open spec fn request_reply_ok(
    t: Seq<crate::store::EntityRecord>,
    reg: Seq<crate::registry::ComponentRegistration>,
    h: u64,
    m: ReplicationMessage,
) -> bool {
    exists|k: u16|
        #[trigger] comp_data(t, h, k) is Some && kind_server_sent(reg, k) && resolve_send(t, h)
            is Some && crate::wire::message_parts(m) == (
            0u8,
            k,
            resolve_send(t, h).unwrap(),
            comp_data(t, h, k).unwrap(),
        ) && crate::wire::wf_message(m)
}

/// Answers a client's request for an entity's full data: one `Upsert`
/// per server-sent component the entity currently holds, each carrying
/// its current bytes.
pub fn request_entity_messages(store: &EntityStore, registry: &ComponentRegistry, h: u64) -> (r:
    Vec<ReplicationMessage>)
    requires
        store.wf(),
        registry.wf(),
    ensures
        forall|x: int| 0 <= x < r@.len() ==> request_reply_ok(store@, registry@, h, #[trigger] r@[x]),
        forall|k: u16|
            comp_data(store@, h, k) is Some && kind_server_sent(registry@, k) && resolve_send(
                store@,
                h,
            ) is Some ==> exists|x: int|
                0 <= x < r@.len() && crate::wire::message_parts(#[trigger] r@[x]) == (
                    0u8,
                    k,
                    resolve_send(store@, h).unwrap(),
                    comp_data(store@, h, k).unwrap(),
                ),
{
    let ghost t = store@;
    let mut out: Vec<ReplicationMessage> = Vec::new();
    let i = match store.find_index(h) {
        Some(i) => i,
        None => {
            return out;
        },
    };
    let rec = store.entity_at(i);
    proof {
        lemma_ent_at(t, i as int);
        assert(crate::store::comps_wf(t[i as int].components@));
    }
    let ghost c = t[i as int].components@;
    let m = rec.components.len();
    let mut j: usize = 0;
    while j < m
        invariant
            j <= m,
            i < t.len(),
            t == store@,
            store.wf(),
            registry.wf(),
            *rec == t[i as int],
            has_entity(t, h),
            ent(t, h) == t[i as int],
            c == t[i as int].components@,
            m == c.len(),
            forall|x: int| 0 <= x < out@.len() ==> request_reply_ok(t, registry@, h, #[trigger] out@[x]),
            forall|k: u16|
                comp_data(t, h, k) is Some && kind_server_sent(registry@, k) && resolve_send(t, h)
                    is Some && crate::store::cidx(c, k) < j ==> exists|x: int|
                    0 <= x < out@.len() && crate::wire::message_parts(#[trigger] out@[x]) == (
                        0u8,
                        k,
                        resolve_send(t, h).unwrap(),
                        comp_data(t, h, k).unwrap(),
                    ),
        decreases m - j,
    {
        let kind = rec.components[j].kind;
        proof {
            lemma_comp_at(c, j as int);
        }
        let sends = match registry.policy_for(kind) {
            Some(p) => {
                let sp = match p {
                    ComponentSyncPolicy::AuthoritativeSide => true,
                    ComponentSyncPolicy::ClientOwned { .. } => false,
                    ComponentSyncPolicy::Shared { .. } => true,
                };
                sp
            },
            None => false,
        };
        let ghost out0 = out@;
        if sends {
            match build_component_message(store, h, kind) {
                Some(msg) => {
                    proof {
                        assert(request_reply_ok(t, registry@, h, msg));
                    }
                    out.push(msg);
                },
                None => {},
            }
        }
        proof {
            assert forall|k: u16|
                comp_data(t, h, k) is Some && kind_server_sent(registry@, k) && resolve_send(t, h)
                    is Some && crate::store::cidx(c, k) < j + 1 implies exists|x: int|
                0 <= x < out@.len() && crate::wire::message_parts(#[trigger] out@[x]) == (
                    0u8,
                    k,
                    resolve_send(t, h).unwrap(),
                    comp_data(t, h, k).unwrap(),
                ) by {
                if crate::store::cidx(c, k) < j {
                    let x = choose|x: int|
                        0 <= x < out0.len() && crate::wire::message_parts(#[trigger] out0[x]) == (
                            0u8,
                            k,
                            resolve_send(t, h).unwrap(),
                            comp_data(t, h, k).unwrap(),
                        );
                    assert(out@[x] == out0[x]);
                } else {
                    assert(crate::store::chas(c, k));
                    lemma_comp_at(c, crate::store::cidx(c, k));
                    assert(crate::store::cidx(c, k) == j);
                    assert(k == kind);
                    assert(out@[out@.len() - 1] == out@.last());
                    assert(crate::wire::message_parts(out@[out@.len() - 1]) == (
                        0u8,
                        k,
                        resolve_send(t, h).unwrap(),
                        comp_data(t, h, k).unwrap(),
                    ));
                }
            }
        }
        j = j + 1;
    }
    out
}

} // verus!





