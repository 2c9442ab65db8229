use crate::net_common::{NetBuilding, NetPlayer, NetPosition, PlayerView, players_view};
use vstd::prelude::*;

verus! {

/// Whether the game can be played yet. `Error` is terminal.
#[derive(Clone, Debug)]
pub enum GameReadiness {
    Ready,
    Loading,
    Error(String),
}

/// No two players of `s` share an id.
pub open spec fn ids_unique(s: Seq<PlayerView>) -> bool {
    forall|i: int, j: int|
        0 <= i < s.len() && 0 <= j < s.len() && i != j ==> #[trigger] s[i].id != #[trigger] s[j].id
}

/// `s` holds a player with id `id`.
pub open spec fn has_id(s: Seq<PlayerView>, id: u8) -> bool {
    exists|i: int| 0 <= i < s.len() && #[trigger] s[i].id == id
}

/// The players of `s` keyed by id.
pub open spec fn players_map(s: Seq<PlayerView>) -> Map<u8, PlayerView> {
    Map::new(
        |id: u8| has_id(s, id),
        |id: u8| s[choose|i: int| 0 <= i < s.len() && #[trigger] s[i].id == id],
    )
}

pub proof fn lemma_players_map_index(s: Seq<PlayerView>, k: int)
    requires
        ids_unique(s),
        0 <= k < s.len(),
    ensures
        players_map(s).contains_key(s[k].id),
        players_map(s)[s[k].id] == s[k],
{
    assert(has_id(s, s[k].id));
    let j = choose|i: int| 0 <= i < s.len() && #[trigger] s[i].id == s[k].id;
    assert(j == k);
}

pub proof fn lemma_players_map_update(s: Seq<PlayerView>, k: int, v: PlayerView)
    requires
        ids_unique(s),
        0 <= k < s.len(),
        v.id == s[k].id,
    ensures
        ids_unique(s.update(k, v)),
        players_map(s.update(k, v)) == players_map(s).insert(v.id, v),
{
    let t = s.update(k, v);
    assert(ids_unique(t)) by {
        assert forall|i: int, j: int|
            0 <= i < t.len() && 0 <= j < t.len() && i != j implies #[trigger] t[i].id
            != #[trigger] t[j].id by {
            assert(s[i].id != s[j].id);
        }
    }
    let m = players_map(s).insert(v.id, v);
    assert forall|id: u8| #[trigger] players_map(t).contains_key(id) == m.contains_key(id) by {
        if has_id(t, id) {
            let i = choose|i: int| 0 <= i < t.len() && #[trigger] t[i].id == id;
            assert(s[i].id == id || i == k);
            if i != k {
                assert(has_id(s, id));
            }
        }
        if has_id(s, id) {
            let i = choose|i: int| 0 <= i < s.len() && #[trigger] s[i].id == id;
            assert(t[i].id == id);
        }
    }
    assert forall|id: u8| #[trigger] players_map(t).contains_key(id) implies players_map(t)[id]
        == m[id] by {
        let i = choose|i: int| 0 <= i < t.len() && #[trigger] t[i].id == id;
        lemma_players_map_index(t, i);
        if i != k {
            lemma_players_map_index(s, i);
        }
    }
    assert(players_map(t) =~= m);
}

pub proof fn lemma_players_map_push(s: Seq<PlayerView>, v: PlayerView)
    requires
        ids_unique(s),
        !has_id(s, v.id),
    ensures
        ids_unique(s.push(v)),
        players_map(s.push(v)) == players_map(s).insert(v.id, v),
{
    let t = s.push(v);
    assert(ids_unique(t)) by {
        assert forall|i: int, j: int|
            0 <= i < t.len() && 0 <= j < t.len() && i != j implies #[trigger] t[i].id
            != #[trigger] t[j].id by {
            if i < s.len() && j < s.len() {
                assert(s[i].id != s[j].id);
            } else if i < s.len() {
                assert(s[i].id == t[i].id);
            } else {
                assert(s[j].id == t[j].id);
            }
        }
    }
    let m = players_map(s).insert(v.id, v);
    assert forall|id: u8| #[trigger] players_map(t).contains_key(id) == m.contains_key(id) by {
        if has_id(t, id) {
            let i = choose|i: int| 0 <= i < t.len() && #[trigger] t[i].id == id;
            if i < s.len() {
                assert(s[i].id == id);
            }
        }
        if has_id(s, id) {
            let i = choose|i: int| 0 <= i < s.len() && #[trigger] s[i].id == id;
            assert(t[i].id == id);
        }
        if id == v.id {
            assert(t[s.len() as int].id == id);
        }
    }
    assert forall|id: u8| #[trigger] players_map(t).contains_key(id) implies players_map(t)[id]
        == m[id] by {
        let i = choose|i: int| 0 <= i < t.len() && #[trigger] t[i].id == id;
        lemma_players_map_index(t, i);
        if i < s.len() {
            lemma_players_map_index(s, i);
        }
    }
    assert(players_map(t) =~= m);
}

pub proof fn lemma_players_map_remove(s: Seq<PlayerView>, k: int)
    requires
        ids_unique(s),
        0 <= k < s.len(),
    ensures
        ids_unique(s.remove(k)),
        players_map(s.remove(k)) == players_map(s).remove(s[k].id),
{
    let t = s.remove(k);
    assert forall|i: int| 0 <= i < t.len() implies #[trigger] t[i] == (if i < k {
        s[i]
    } else {
        s[i + 1]
    }) by {}
    assert(ids_unique(t)) by {
        assert forall|i: int, j: int|
            0 <= i < t.len() && 0 <= j < t.len() && i != j implies #[trigger] t[i].id
            != #[trigger] t[j].id by {
            let a = if i < k { i } else { i + 1 };
            let b = if j < k { j } else { j + 1 };
            assert(s[a].id != s[b].id);
        }
    }
    let m = players_map(s).remove(s[k].id);
    assert forall|id: u8| #[trigger] players_map(t).contains_key(id) == m.contains_key(id) by {
        if has_id(t, id) {
            let i = choose|i: int| 0 <= i < t.len() && #[trigger] t[i].id == id;
            let a = if i < k { i } else { i + 1 };
            assert(s[a].id == id);
            assert(a != k);
            assert(s[a].id != s[k].id);
        }
        if has_id(s, id) && id != s[k].id {
            let a = choose|i: int| 0 <= i < s.len() && #[trigger] s[i].id == id;
            assert(a != k);
            let i = if a < k { a } else { a - 1 };
            assert(t[i].id == id);
        }
    }
    assert forall|id: u8| #[trigger] players_map(t).contains_key(id) implies players_map(t)[id]
        == m[id] by {
        let i = choose|i: int| 0 <= i < t.len() && #[trigger] t[i].id == id;
        lemma_players_map_index(t, i);
        let a = if i < k { i } else { i + 1 };
        lemma_players_map_index(s, a);
    }
    assert(players_map(t) =~= m);
}

/// The authoritative game state, shared between the network side and the
/// simulation side. `players` holds at most one record per id.
pub struct GameState {
    pub spawn: NetPosition,
    pub own_player: u8,
    pub ready: GameReadiness,
    pub players: Vec<NetPlayer>,
    pub buildings: Vec<NetBuilding>,
}

impl GameState {
    /// The players held, keyed by id.
    pub open spec fn player_map(&self) -> Map<u8, PlayerView> {
        players_map(players_view(self.players@))
    }

    /// Well-formedness: player ids are unique.
    pub open spec fn wf(&self) -> bool {
        ids_unique(players_view(self.players@))
    }

    /// The index of the player with id `id`, if there is one.
    pub fn find_player(&self, id: u8) -> (r: Option<usize>)
        requires
            self.wf(),
        ensures
            r is Some <==> self.player_map().contains_key(id),
            r matches Some(k) ==> k < self.players.len() && self.players[k as int].id == id,
    {
        let ghost v = players_view(self.players@);
        let mut i: usize = 0;
        while i < self.players.len()
            invariant
                i <= self.players.len(),
                v == players_view(self.players@),
                forall|j: int| 0 <= j < i ==> #[trigger] v[j].id != id,
            decreases self.players.len() - i,
        {
            if self.players[i].id == id {
                assert(v[i as int].id == id);
                return Some(i);
            }
            i = i + 1;
        }
        assert(!has_id(v, id));
        None
    }

    /// Inserts `player`, replacing any player with the same id.
    pub fn add_player(&mut self, player: NetPlayer)
        requires
            old(self).wf(),
        ensures
            final(self).wf(),
            final(self).player_map() == old(self).player_map().insert(player.id, player@),
            final(self).buildings@ == old(self).buildings@,
            final(self).spawn == old(self).spawn,
            final(self).own_player == old(self).own_player,
            final(self).ready == old(self).ready,
    {
        let ghost s = players_view(self.players@);
        let ghost pv = player@;
        match self.find_player(player.id) {
            Some(k) => {
                self.players.set(k, player);
                proof {
                    lemma_players_map_update(s, k as int, pv);
                    assert(players_view(self.players@) =~= s.update(k as int, pv));
                }
            },
            None => {
                self.players.push(player);
                proof {
                    lemma_players_map_push(s, pv);
                    assert(players_view(self.players@) =~= s.push(pv));
                }
            },
        }
    }

    /// Sets the position of the player with id `id`; returns false, changing
    /// nothing, when no such player is held.
    pub fn move_player(&mut self, id: u8, pos: NetPosition) -> (r: bool)
        requires
            old(self).wf(),
        ensures
            final(self).wf(),
            r == old(self).player_map().contains_key(id),
            final(self).player_map() == move_spec(old(self).player_map(), id, pos),
            final(self).buildings@ == old(self).buildings@,
            final(self).spawn == old(self).spawn,
            final(self).own_player == old(self).own_player,
            final(self).ready == old(self).ready,
    {
        let ghost s = players_view(self.players@);
        match self.find_player(id) {
            Some(k) => {
                proof {
                    lemma_players_map_index(s, k as int);
                }
                let mut p = self.players[k].duplicate();
                p.position = pos;
                let ghost pv = p@;
                self.players.set(k, p);
                proof {
                    lemma_players_map_update(s, k as int, pv);
                    assert(players_view(self.players@) =~= s.update(k as int, pv));
                }
                true
            },
            None => false,
        }
    }

    /// Removes the player with id `id`; returns whether one was held.
    pub fn remove_player(&mut self, id: u8) -> (r: bool)
        requires
            old(self).wf(),
        ensures
            final(self).wf(),
            r == old(self).player_map().contains_key(id),
            final(self).player_map() == old(self).player_map().remove(id),
            final(self).buildings@ == old(self).buildings@,
            final(self).spawn == old(self).spawn,
            final(self).own_player == old(self).own_player,
            final(self).ready == old(self).ready,
    {
        let ghost s = players_view(self.players@);
        match self.find_player(id) {
            Some(k) => {
                self.players.remove(k);
                proof {
                    lemma_players_map_remove(s, k as int);
                    assert(players_view(self.players@) =~= s.remove(k as int));
                }
                true
            },
            None => {
                assert(players_map(s).remove(id) =~= players_map(s));
                false
            },
        }
    }
}

/// The players after a `Move` of player `id` to `pos`: that player's position
/// is replaced, everything else stays; an unknown id changes nothing.
pub open spec fn move_spec(m: Map<u8, PlayerView>, id: u8, pos: NetPosition) -> Map<u8, PlayerView> {
    if m.contains_key(id) {
        m.insert(id, PlayerView { position: pos, ..m[id] })
    } else {
        m
    }
}

impl Default for GameState {
    fn default() -> (r: GameState)
        ensures
            r.ready is Loading,
            r.spawn == (NetPosition { x: 0, y: 0 }),
            r.own_player == 0,
            r.players@.len() == 0,
            r.buildings@.len() == 0,
            r.wf(),
    {
        GameState {
            ready: GameReadiness::Loading,
            spawn: NetPosition { x: 0, y: 0 },
            own_player: 0,
            players: Vec::new(),
            buildings: Vec::new(),
        }
    }
}

/// Marks the game as failed with `error`; nothing else changes.
pub fn set_error(state: &mut GameState, error: String)
    ensures
        final(state).ready == GameReadiness::Error(error),
        final(state).players@ == old(state).players@,
        final(state).buildings@ == old(state).buildings@,
        final(state).spawn == old(state).spawn,
        final(state).own_player == old(state).own_player,
{
    state.ready = GameReadiness::Error(error);
}

} // verus!
