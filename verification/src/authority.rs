//! The authority validator.
//!
//! A message that claims client authority is checked against a small set
//! of ownership predicates before it may touch the addressed component:
//! anyone may write (`Unrestricted`), only the sender's own player object
//! may be written (`MustBeSelf`), or the sender's player must currently
//! control the entity owning the component (`MustControlEntity`). A failed
//! check drops the single message and nothing else: a stale claim is an
//! expected race, not misbehavior.

use vstd::prelude::*;

verus! {

/// Which ownership predicate a client-writable component demands.
#[derive(Debug, Clone, Copy, PartialEq, Eq, Structural)]
pub enum AuthorityRule {
    /// Always passes.
    Unrestricted,
    /// The sender's player must currently control the entity that owns
    /// the addressed component (a pilot and their craft).
    MustControlEntity,
    /// The addressed entity must be the sender's own player object.
    MustBeSelf,
}

/// Per component type: who may send it, and under which rule.
#[derive(Debug, Clone, Copy, PartialEq, Eq, Structural)]
pub enum ComponentSyncPolicy {
    /// Only the authoritative side ever sends; receivers never originate
    /// changes.
    AuthoritativeSide,
    /// Only the owning client sends; the authoritative side validates and
    /// re-broadcasts.
    ClientOwned {
        /// The ownership predicate the sender must satisfy.
        rule: AuthorityRule,
    },
    /// Either side may send; receivers suppress redundant echoes.
    Shared {
        /// The ownership predicate a client sender must satisfy.
        rule: AuthorityRule,
    },
}

/// Whether the authoritative side sends components of this policy.
pub open spec fn server_sends(p: ComponentSyncPolicy) -> bool {
    match p {
        ComponentSyncPolicy::AuthoritativeSide => true,
        ComponentSyncPolicy::ClientOwned { .. } => false,
        ComponentSyncPolicy::Shared { .. } => true,
    }
}

/// Whether the owning client sends components of this policy.
pub open spec fn client_sends(p: ComponentSyncPolicy) -> bool {
    match p {
        ComponentSyncPolicy::AuthoritativeSide => false,
        ComponentSyncPolicy::ClientOwned { .. } => true,
        ComponentSyncPolicy::Shared { .. } => true,
    }
}

/// The ownership predicate a client write under this policy must pass.
pub open spec fn client_rule(p: ComponentSyncPolicy) -> Option<AuthorityRule> {
    match p {
        ComponentSyncPolicy::AuthoritativeSide => None,
        ComponentSyncPolicy::ClientOwned { rule } => Some(rule),
        ComponentSyncPolicy::Shared { rule } => Some(rule),
    }
}

/// One connected client and its player object.
#[derive(Debug, Clone, Copy, PartialEq, Eq, Structural)]
pub struct LobbyRow {
    /// The connection's identifier.
    pub client_id: u64,
    /// The player entity associated with the connection.
    pub player: u64,
}

/// Some row of `t` belongs to this connection.
pub open spec fn lobby_has(t: Seq<LobbyRow>, client_id: u64) -> bool {
    exists|i: int| 0 <= i < t.len() && (#[trigger] t[i]).client_id == client_id
}

/// Some row of `t` associates this connection with this player.
pub open spec fn lobby_maps(t: Seq<LobbyRow>, client_id: u64, player: u64) -> bool {
    exists|i: int|
        0 <= i < t.len() && (#[trigger] t[i]).client_id == client_id && t[i].player == player
}

/// At most one row per connection.
pub open spec fn lobby_wf(t: Seq<LobbyRow>) -> bool {
    forall|i: int, j: int|
        0 <= i < j < t.len() ==> (#[trigger] t[i]).client_id != (#[trigger] t[j]).client_id
}

/// The connected clients and their player objects.
#[derive(Debug)]
pub struct ServerLobby {
    rows: Vec<LobbyRow>,
}

impl View for ServerLobby {
    type V = Seq<LobbyRow>;

    closed spec fn view(&self) -> Seq<LobbyRow> {
        self.rows@
    }
}

impl ServerLobby {
    /// One row per connection.
    pub open spec fn wf(&self) -> bool {
        lobby_wf(self@)
    }

    /// An empty lobby.
    pub fn new() -> (r: ServerLobby)
        ensures
            r.wf(),
            r@.len() == 0,
    {
        ServerLobby { rows: Vec::new() }
    }

    /// Associates a newly connected client with its player entity.
    pub fn add_player(&mut self, client_id: u64, player: u64)
        requires
            old(self).wf(),
            !lobby_has(old(self)@, client_id),
        ensures
            final(self).wf(),
            final(self)@ == old(self)@.push(LobbyRow { client_id, player }),
            forall|c: u64, p: u64|
                lobby_maps(final(self)@, c, p) <==> (lobby_maps(old(self)@, c, p) || (c == client_id
                    && p == player)),
    {
        self.rows.push(LobbyRow { client_id, player });
        proof {
            let t0 = old(self)@;
            let t1 = self@;
            assert(t1[t1.len() - 1].client_id == client_id && t1[t1.len() - 1].player == player);
            assert(lobby_maps(t1, client_id, player));
            assert forall|c: u64, p: u64| lobby_maps(t1, c, p) implies (lobby_maps(t0, c, p) || (c
                == client_id && p == player)) by {
                let i = choose|i: int|
                    0 <= i < t1.len() && (#[trigger] t1[i]).client_id == c && t1[i].player == p;
                if i < t0.len() {
                    assert(t0[i].client_id == c);
                }
            }
            assert forall|c: u64, p: u64| lobby_maps(t0, c, p) implies lobby_maps(t1, c, p) by {
                let i = choose|i: int|
                    0 <= i < t0.len() && (#[trigger] t0[i]).client_id == c && t0[i].player == p;
                assert(t1[i].client_id == c);
            }
        }
    }

    /// Removes a disconnecting client's row and hands back its player
    /// entity, if the client was known. Idempotent.
    pub fn remove_player(&mut self, client_id: u64) -> (r: Option<u64>)
        requires
            old(self).wf(),
        ensures
            final(self).wf(),
            !lobby_has(final(self)@, client_id),
            forall|c: u64, p: u64|
                c != client_id ==> (lobby_maps(final(self)@, c, p) <==> lobby_maps(old(self)@, c, p)),
            r matches Some(p) ==> lobby_maps(old(self)@, client_id, p),
            r is None ==> !lobby_has(old(self)@, client_id) && final(self)@ == old(self)@,
    {
        let n = self.rows.len();
        let mut i: usize = 0;
        while i < n
            invariant
                i <= n,
                n == self@.len(),
                self.wf(),
                self@ == old(self)@,
                forall|k: int| 0 <= k < i ==> (#[trigger] self@[k]).client_id != client_id,
            decreases n - i,
        {
            if self.rows[i].client_id == client_id {
                let row = self.rows.remove(i);
                proof {
                    let t0 = old(self)@;
                    let t1 = self@;
                    let rr: int = i as int;
                    assert(t1 =~= t0.subrange(0, rr) + t0.subrange(rr + 1, t0.len() as int));
                    assert forall|k: int| 0 <= k < t1.len() implies (#[trigger] t1[k]).client_id
                        != client_id by {
                        if k < rr {
                            assert(t1[k] == t0[k]);
                        } else {
                            assert(t1[k] == t0[k + 1]);
                        }
                    }
                    assert forall|c: u64, p: u64|
                        c != client_id && lobby_maps(t1, c, p) implies lobby_maps(t0, c, p) by {
                        let k = choose|k: int|
                            0 <= k < t1.len() && (#[trigger] t1[k]).client_id == c && t1[k].player
                                == p;
                        if k < rr {
                            assert(t0[k].client_id == c && t0[k].player == p);
                        } else {
                            assert(t0[k + 1].client_id == c && t0[k + 1].player == p);
                        }
                    }
                    assert forall|c: u64, p: u64|
                        c != client_id && lobby_maps(t0, c, p) implies lobby_maps(t1, c, p) by {
                        let k = choose|k: int|
                            0 <= k < t0.len() && (#[trigger] t0[k]).client_id == c && t0[k].player
                                == p;
                        if k < rr {
                            assert(t1[k].client_id == c && t1[k].player == p);
                        } else {
                            assert(k != rr);
                            assert(t1[k - 1].client_id == c && t1[k - 1].player == p);
                        }
                    }
                }
                return Some(row.player);
            }
            i = i + 1;
        }
        None
    }

    /// The player entity associated with this connection.
    pub fn player_from_id(&self, client_id: u64) -> (r: Option<u64>)
        requires
            self.wf(),
        ensures
            r matches Some(p) ==> lobby_maps(self@, client_id, p),
            r is None ==> !lobby_has(self@, client_id),
    {
        let n = self.rows.len();
        let mut i: usize = 0;
        while i < n
            invariant
                i <= n,
                n == self@.len(),
                self.wf(),
                forall|k: int| 0 <= k < i ==> (#[trigger] self@[k]).client_id != client_id,
            decreases n - i,
        {
            if self.rows[i].client_id == client_id {
                return Some(self.rows[i].player);
            }
            i = i + 1;
        }
        None
    }
}

/// One "controls" relationship: a player currently piloting a craft.
#[derive(Debug, Clone, Copy, PartialEq, Eq, Structural)]
pub struct PilotRow {
    /// The controlling player entity.
    pub player: u64,
    /// The entity the player controls.
    pub craft: u64,
}

/// Some row of `t` has this player controlling this craft.
pub open spec fn pilot_maps(t: Seq<PilotRow>, player: u64, craft: u64) -> bool {
    exists|i: int|
        0 <= i < t.len() && (#[trigger] t[i]).player == player && t[i].craft == craft
}

/// Some row of `t` belongs to this player.
pub open spec fn pilot_has(t: Seq<PilotRow>, player: u64) -> bool {
    exists|i: int| 0 <= i < t.len() && (#[trigger] t[i]).player == player
}

/// At most one row per player.
pub open spec fn pilots_wf(t: Seq<PilotRow>) -> bool {
    forall|i: int, j: int|
        0 <= i < j < t.len() ==> (#[trigger] t[i]).player != (#[trigger] t[j]).player
}

/// The current "controls" relationships, one craft per player.
#[derive(Debug)]
pub struct Pilots {
    rows: Vec<PilotRow>,
}

impl View for Pilots {
    type V = Seq<PilotRow>;

    closed spec fn view(&self) -> Seq<PilotRow> {
        self.rows@
    }
}

impl Pilots {
    /// One craft per player.
    pub open spec fn wf(&self) -> bool {
        pilots_wf(self@)
    }

    /// No one controls anything yet.
    pub fn new() -> (r: Pilots)
        ensures
            r.wf(),
            r@.len() == 0,
    {
        Pilots { rows: Vec::new() }
    }

    /// Records that this player now controls this craft.
    pub fn set_pilot(&mut self, player: u64, craft: u64)
        requires
            old(self).wf(),
            !pilot_has(old(self)@, player),
        ensures
            final(self).wf(),
            final(self)@ == old(self)@.push(PilotRow { player, craft }),
            forall|p: u64, c: u64|
                pilot_maps(final(self)@, p, c) <==> (pilot_maps(old(self)@, p, c) || (p == player
                    && c == craft)),
    {
        self.rows.push(PilotRow { player, craft });
        proof {
            let t0 = old(self)@;
            let t1 = self@;
            assert(t1[t1.len() - 1].player == player && t1[t1.len() - 1].craft == craft);
            assert(pilot_maps(t1, player, craft));
            assert forall|p: u64, c: u64| pilot_maps(t1, p, c) implies (pilot_maps(t0, p, c) || (p
                == player && c == craft)) by {
                let i = choose|i: int|
                    0 <= i < t1.len() && (#[trigger] t1[i]).player == p && t1[i].craft == c;
                if i < t0.len() {
                    assert(t0[i].player == p);
                }
            }
            assert forall|p: u64, c: u64| pilot_maps(t0, p, c) implies pilot_maps(t1, p, c) by {
                let i = choose|i: int|
                    0 <= i < t0.len() && (#[trigger] t0[i]).player == p && t0[i].craft == c;
                assert(t1[i].player == p);
            }
        }
    }

    /// Forgets this player's "controls" relationship. Idempotent.
    pub fn clear_pilot(&mut self, player: u64)
        requires
            old(self).wf(),
        ensures
            final(self).wf(),
            !pilot_has(final(self)@, player),
            forall|p: u64, c: u64|
                p != player ==> (pilot_maps(final(self)@, p, c) <==> pilot_maps(old(self)@, p, c)),
    {
        let n = self.rows.len();
        let mut i: usize = 0;
        while i < n
            invariant
                i <= n,
                n == self@.len(),
                self.wf(),
                self@ == old(self)@,
                forall|k: int| 0 <= k < i ==> (#[trigger] self@[k]).player != player,
            decreases n - i,
        {
            if self.rows[i].player == player {
                self.rows.remove(i);
                proof {
                    let t0 = old(self)@;
                    let t1 = self@;
                    let rr: int = i as int;
                    assert(t1 =~= t0.subrange(0, rr) + t0.subrange(rr + 1, t0.len() as int));
                    assert forall|k: int| 0 <= k < t1.len() implies (#[trigger] t1[k]).player
                        != player by {
                        if k < rr {
                            assert(t1[k] == t0[k]);
                        } else {
                            assert(t1[k] == t0[k + 1]);
                        }
                    }
                    assert forall|p: u64, c: u64|
                        p != player && pilot_maps(t1, p, c) implies pilot_maps(t0, p, c) by {
                        let k = choose|k: int|
                            0 <= k < t1.len() && (#[trigger] t1[k]).player == p && t1[k].craft == c;
                        if k < rr {
                            assert(t0[k].player == p && t0[k].craft == c);
                        } else {
                            assert(t0[k + 1].player == p && t0[k + 1].craft == c);
                        }
                    }
                    assert forall|p: u64, c: u64|
                        p != player && pilot_maps(t0, p, c) implies pilot_maps(t1, p, c) by {
                        let k = choose|k: int|
                            0 <= k < t0.len() && (#[trigger] t0[k]).player == p && t0[k].craft == c;
                        if k < rr {
                            assert(t1[k].player == p && t1[k].craft == c);
                        } else {
                            assert(k != rr);
                            assert(t1[k - 1].player == p && t1[k - 1].craft == c);
                        }
                    }
                }
                return ;
            }
            i = i + 1;
        }
    }

    /// The craft this player currently controls.
    pub fn craft_of(&self, player: u64) -> (r: Option<u64>)
        requires
            self.wf(),
        ensures
            r matches Some(c) ==> pilot_maps(self@, player, c),
            r is None ==> !pilot_has(self@, player),
    {
        let n = self.rows.len();
        let mut i: usize = 0;
        while i < n
            invariant
                i <= n,
                n == self@.len(),
                self.wf(),
                forall|k: int| 0 <= k < i ==> (#[trigger] self@[k]).player != player,
            decreases n - i,
        {
            if self.rows[i].player == player {
                return Some(self.rows[i].craft);
            }
            i = i + 1;
        }
        None
    }
}

/// What it means for a sender to hold authority: `Unrestricted` always
/// passes; `MustBeSelf` passes exactly when the addressed owner is the
/// sender's own player; `MustControlEntity` passes exactly when the
/// sender's player currently controls the addressed owner.
pub open spec fn authority_ok(
    rule: AuthorityRule,
    lobby: Seq<LobbyRow>,
    pilots: Seq<PilotRow>,
    client_id: u64,
    authority_entity: u64,
) -> bool {
    match rule {
        AuthorityRule::Unrestricted => true,
        AuthorityRule::MustBeSelf => lobby_maps(lobby, client_id, authority_entity),
        AuthorityRule::MustControlEntity => exists|p: u64|
            #[trigger] lobby_maps(lobby, client_id, p) && pilot_maps(pilots, p, authority_entity),
    }
}

/// Decides whether the sending connection holds the claimed authority
/// over the entity owning the addressed component.
pub fn validate_authority(
    rule: AuthorityRule,
    lobby: &ServerLobby,
    pilots: &Pilots,
    client_id: u64,
    authority_entity: u64,
) -> (r: bool)
    requires
        lobby.wf(),
        pilots.wf(),
    ensures
        r == authority_ok(rule, lobby@, pilots@, client_id, authority_entity),
{
    match rule {
        AuthorityRule::Unrestricted => true,
        AuthorityRule::MustBeSelf => {
            match lobby.player_from_id(client_id) {
                Some(player) => {
                    proof {
                        if player != authority_entity && lobby_maps(
                            lobby@,
                            client_id,
                            authority_entity,
                        ) {
                            let i = choose|i: int|
                                0 <= i < lobby@.len() && (#[trigger] lobby@[i]).client_id
                                    == client_id && lobby@[i].player == authority_entity;
                            let j = choose|j: int|
                                0 <= j < lobby@.len() && (#[trigger] lobby@[j]).client_id
                                    == client_id && lobby@[j].player == player;
                            if i < j {
                                assert(lobby@[i].client_id != lobby@[j].client_id);
                            } else if j < i {
                                assert(lobby@[j].client_id != lobby@[i].client_id);
                            }
                        }
                    }
                    player == authority_entity
                },
                None => false,
            }
        },
        AuthorityRule::MustControlEntity => {
            match lobby.player_from_id(client_id) {
                Some(player) => {
                    match pilots.craft_of(player) {
                        Some(craft) => {
                            proof {
                                if craft != authority_entity && authority_ok(
                                    rule,
                                    lobby@,
                                    pilots@,
                                    client_id,
                                    authority_entity,
                                ) {
                                    let p = choose|p: u64|
                                        #[trigger] lobby_maps(lobby@, client_id, p) && pilot_maps(
                                            pilots@,
                                            p,
                                            authority_entity,
                                        );
                                    lemma_lobby_functional(lobby@, client_id, p, player);
                                    lemma_pilots_functional(pilots@, player, authority_entity, craft);
                                }
                                if craft == authority_entity {
                                    assert(lobby_maps(lobby@, client_id, player) && pilot_maps(
                                        pilots@,
                                        player,
                                        authority_entity,
                                    ));
                                }
                            }
                            craft == authority_entity
                        },
                        None => {
                            proof {
                                if authority_ok(rule, lobby@, pilots@, client_id, authority_entity) {
                                    let p = choose|p: u64|
                                        #[trigger] lobby_maps(lobby@, client_id, p) && pilot_maps(
                                            pilots@,
                                            p,
                                            authority_entity,
                                        );
                                    lemma_lobby_functional(lobby@, client_id, p, player);
                                    let i = choose|i: int|
                                        0 <= i < pilots@.len() && (#[trigger] pilots@[i]).player
                                            == player && pilots@[i].craft == authority_entity;
                                    assert(pilot_has(pilots@, player));
                                }
                            }
                            false
                        },
                    }
                },
                None => {
                    proof {
                        if authority_ok(rule, lobby@, pilots@, client_id, authority_entity) {
                            let p = choose|p: u64|
                                #[trigger] lobby_maps(lobby@, client_id, p) && pilot_maps(
                                    pilots@,
                                    p,
                                    authority_entity,
                                );
                            let i = choose|i: int|
                                0 <= i < lobby@.len() && (#[trigger] lobby@[i]).client_id
                                    == client_id && lobby@[i].player == p;
                            assert(lobby_has(lobby@, client_id));
                        }
                    }
                    false
                },
            }
        },
    }
}

/// A well-formed lobby associates one player with a connection.
pub proof fn lemma_lobby_functional(t: Seq<LobbyRow>, client_id: u64, p1: u64, p2: u64)
    requires
        lobby_wf(t),
        lobby_maps(t, client_id, p1),
        lobby_maps(t, client_id, p2),
    ensures
        p1 == p2,
{
    let i = choose|i: int|
        0 <= i < t.len() && (#[trigger] t[i]).client_id == client_id && t[i].player == p1;
    let j = choose|j: int|
        0 <= j < t.len() && (#[trigger] t[j]).client_id == client_id && t[j].player == p2;
    if i < j {
        assert(t[i].client_id != t[j].client_id);
    } else if j < i {
        assert(t[j].client_id != t[i].client_id);
    }
}

/// A well-formed pilot table associates one craft with a player.
pub proof fn lemma_pilots_functional(t: Seq<PilotRow>, player: u64, c1: u64, c2: u64)
    requires
        pilots_wf(t),
        pilot_maps(t, player, c1),
        pilot_maps(t, player, c2),
    ensures
        c1 == c2,
{
    let i = choose|i: int|
        0 <= i < t.len() && (#[trigger] t[i]).player == player && t[i].craft == c1;
    let j = choose|j: int|
        0 <= j < t.len() && (#[trigger] t[j]).player == player && t[j].craft == c2;
    if i < j {
        assert(t[i].player != t[j].player);
    } else if j < i {
        assert(t[j].player != t[i].player);
    }
}

} // verus!
