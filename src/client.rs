//! The client's side: merging what the server sends into the local state and
//! writing the local player's predicted move back.
use crate::collision::resolve_spec;
use crate::game::{GameReadiness, GameState, lemma_players_map_index, move_spec};
use crate::net_common::{Commands, CommandsView, NetPosition, PlayerView, PositionMap, players_view};
use vstd::prelude::*;

verus! {

/// The players after the positions of `batch` are merged in, in order; the
/// entry of the local player `own` is skipped, so that the server never
/// overwrites the local prediction.
pub open spec fn merge_moves(m: Map<u8, PlayerView>, own: u8, batch: Seq<PositionMap>) -> Map<u8, PlayerView>
    decreases batch.len(),
{
    if batch.len() == 0 {
        m
    } else {
        let prev = merge_moves(m, own, batch.drop_last());
        if batch.last().id == own {
            prev
        } else {
            move_spec(prev, batch.last().id, batch.last().pos)
        }
    }
}

/// The players after the records `ps` are added in order, each replacing any
/// player with its id.
pub open spec fn add_all(m: Map<u8, PlayerView>, ps: Seq<PlayerView>) -> Map<u8, PlayerView>
    decreases ps.len(),
{
    if ps.len() == 0 {
        m
    } else {
        add_all(m, ps.drop_last()).insert(ps.last().id, ps.last())
    }
}

impl GameState {
    /// Applies one message from the server. Once the state is in error
    /// nothing changes. Otherwise: `MovedPlayers` merges positions, but the
    /// local player's; `AddPlayer` adds or replaces a player, but not the
    /// local one; `RemovePlayer` removes a player; `SendMap` sets the
    /// buildings; `SendPlayerInfo` adds every player it lists and makes its id
    /// the local player's; `AllowClientReady` marks the game ready. Messages
    /// meant for the server change nothing.
    pub fn apply_server_message(&mut self, cmd: Commands)
        requires
            old(self).wf(),
        ensures
            final(self).wf(),
            final(self).spawn == old(self).spawn,
            old(self).ready is Error ==> {
                &&& final(self).players@ == old(self).players@
                &&& final(self).buildings@ == old(self).buildings@
                &&& final(self).own_player == old(self).own_player
                &&& final(self).ready == old(self).ready
            },
            !(old(self).ready is Error) ==> match cmd@ {
                CommandsView::MovedPlayers(batch) => {
                    &&& final(self).player_map() == merge_moves(old(self).player_map(), old(self).own_player, batch)
                    &&& final(self).buildings@ == old(self).buildings@
                    &&& final(self).own_player == old(self).own_player
                    &&& final(self).ready == old(self).ready
                },
                CommandsView::AddPlayer(p) => {
                    &&& final(self).player_map() == if p.id == old(self).own_player {
                        old(self).player_map()
                    } else {
                        old(self).player_map().insert(p.id, p)
                    }
                    &&& final(self).buildings@ == old(self).buildings@
                    &&& final(self).own_player == old(self).own_player
                    &&& final(self).ready == old(self).ready
                },
                CommandsView::RemovePlayer(id) => {
                    &&& final(self).player_map() == old(self).player_map().remove(id)
                    &&& final(self).buildings@ == old(self).buildings@
                    &&& final(self).own_player == old(self).own_player
                    &&& final(self).ready == old(self).ready
                },
                CommandsView::SendMap(bs) => {
                    &&& final(self).players@ == old(self).players@
                    &&& final(self).buildings@ == bs
                    &&& final(self).own_player == old(self).own_player
                    &&& final(self).ready == old(self).ready
                },
                CommandsView::SendPlayerInfo { players, your_num } => {
                    &&& final(self).player_map() == add_all(old(self).player_map(), players)
                    &&& final(self).buildings@ == old(self).buildings@
                    &&& final(self).own_player == your_num
                    &&& final(self).ready == old(self).ready
                },
                CommandsView::AllowClientReady(_) => {
                    &&& final(self).players@ == old(self).players@
                    &&& final(self).buildings@ == old(self).buildings@
                    &&& final(self).own_player == old(self).own_player
                    &&& final(self).ready == GameReadiness::Ready
                },
                _ => {
                    &&& final(self).players@ == old(self).players@
                    &&& final(self).buildings@ == old(self).buildings@
                    &&& final(self).own_player == old(self).own_player
                    &&& final(self).ready == old(self).ready
                },
            },
    {
        if let GameReadiness::Error(_) = self.ready {
            return;
        }
        match cmd {
            Commands::MovedPlayers(batch) => {
                let own = self.own_player;
                let mut i: usize = 0;
                while i < batch.len()
                    invariant
                        self.wf(),
                        i <= batch@.len(),
                        own == old(self).own_player,
                        self.player_map() == merge_moves(old(self).player_map(), own, batch@.take(i as int)),
                        self.buildings@ == old(self).buildings@,
                        self.spawn == old(self).spawn,
                        self.own_player == old(self).own_player,
                        self.ready == old(self).ready,
                    decreases batch@.len() - i,
                {
                    let e = batch[i];
                    assert(batch@.take(i + 1).drop_last() =~= batch@.take(i as int));
                    if e.id != own {
                        let _ = self.move_player(e.id, e.pos);
                    }
                    i = i + 1;
                }
                assert(batch@.take(batch@.len() as int) =~= batch@);
            },
            Commands::AddPlayer(p) => {
                if p.id != self.own_player {
                    self.add_player(p);
                }
            },
            Commands::RemovePlayer(id) => {
                let _ = self.remove_player(id);
            },
            Commands::SendMap(m) => {
                self.buildings = m.buildings;
            },
            Commands::SendPlayerInfo(info) => {
                let ghost pv = players_view(info.players@);
                let mut i: usize = 0;
                while i < info.players.len()
                    invariant
                        self.wf(),
                        i <= info.players@.len(),
                        pv == players_view(info.players@),
                        self.player_map() == add_all(old(self).player_map(), pv.take(i as int)),
                        self.buildings@ == old(self).buildings@,
                        self.spawn == old(self).spawn,
                        self.own_player == old(self).own_player,
                        self.ready == old(self).ready,
                    decreases info.players@.len() - i,
                {
                    let p = info.players[i].duplicate();
                    assert(pv.take(i + 1).drop_last() =~= pv.take(i as int));
                    assert(pv.take(i + 1).last() == p@);
                    self.add_player(p);
                    i = i + 1;
                }
                assert(pv.take(pv.len() as int) =~= pv);
                self.own_player = info.your_num;
            },
            Commands::AllowClientReady(_) => {
                self.ready = GameReadiness::Ready;
            },
            _ => {},
        }
    }
}

impl GameState {
    /// One step of local prediction: the local player asks to move to
    /// `proposed`; the move is resolved against the buildings and the
    /// resolved position is written back into the local player's record,
    /// and returned. Without a local player nothing changes.
    pub fn reconcile_own_move(&mut self, proposed: NetPosition) -> (r: Option<NetPosition>)
        requires
            old(self).wf(),
        ensures
            final(self).wf(),
            final(self).buildings@ == old(self).buildings@,
            final(self).spawn == old(self).spawn,
            final(self).own_player == old(self).own_player,
            final(self).ready == old(self).ready,
            !old(self).player_map().contains_key(old(self).own_player) ==> r is None && final(self).players@
                == old(self).players@,
            old(self).player_map().contains_key(old(self).own_player) ==> {
                let own = old(self).own_player;
                let res = resolve_spec(old(self).buildings@, old(self).player_map()[own].position, proposed);
                &&& r == Some(res)
                &&& final(self).player_map() == move_spec(old(self).player_map(), own, res)
            },
    {
        let own = self.own_player;
        match self.find_player(own) {
            Some(k) => {
                proof {
                    lemma_players_map_index(players_view(self.players@), k as int);
                }
                let resolved = self.resolve_collide(&self.players[k], proposed);
                let _ = self.move_player(own, resolved);
                Some(resolved)
            },
            None => None,
        }
    }
}

} // verus!
