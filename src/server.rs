//! The server's session manager and diff-broadcast scheduler, as a state
//! machine: the caller feeds it transport events and scheduler ticks and sends
//! the messages it hands back.
use crate::game::{GameState, has_id, ids_unique, lemma_players_map_push, move_spec, players_map};
use crate::net_common::{
    Commands, CommandsView, NetBuilding, NetColour, NetPlayer, NetPlayerInfo, NetPosition, PlayerView,
    PositionMap, RegistrationInfo, WorldMap, players_view,
};
use crate::wire::{decode, decode_spec};
use vstd::prelude::*;

verus! {

/// One connection: its transport key and, once registered, its player id.
#[derive(Clone, Copy, Debug, PartialEq, Eq, Structural)]
pub struct Session {
    pub conn: u64,
    pub id: Option<u8>,
}

/// A message to send on connection `to`.
#[derive(Clone, Debug)]
pub struct Outgoing {
    pub to: u64,
    pub msg: Commands,
}

pub struct OutgoingView {
    pub to: u64,
    pub msg: CommandsView,
}

impl View for Outgoing {
    type V = OutgoingView;

    open spec fn view(&self) -> OutgoingView {
        OutgoingView { to: self.to, msg: self.msg@ }
    }
}

pub open spec fn outgoing_view(s: Seq<Outgoing>) -> Seq<OutgoingView> {
    s.map_values(|o: Outgoing| o@)
}

/// No two sessions share a connection key.
pub open spec fn conns_unique(ss: Seq<Session>) -> bool {
    forall|i: int, j: int|
        0 <= i < ss.len() && 0 <= j < ss.len() && i != j ==> #[trigger] ss[i].conn != #[trigger] ss[j].conn
}

pub open spec fn has_conn(ss: Seq<Session>, conn: u64) -> bool {
    exists|i: int| 0 <= i < ss.len() && #[trigger] ss[i].conn == conn
}

/// The index of the session of `conn` (meaningful when `has_conn`).
pub open spec fn conn_index(ss: Seq<Session>, conn: u64) -> int {
    choose|i: int| 0 <= i < ss.len() && #[trigger] ss[i].conn == conn
}

/// `msg` addressed to every session of `ss` in order, but the one of `except`.
pub open spec fn fan_out(ss: Seq<Session>, except: Option<u64>, msg: CommandsView) -> Seq<OutgoingView>
    decreases ss.len(),
{
    if ss.len() == 0 {
        Seq::empty()
    } else {
        let rest = fan_out(ss.drop_last(), except, msg);
        if except == Some(ss.last().conn) {
            rest
        } else {
            rest.push(OutgoingView { to: ss.last().conn, msg })
        }
    }
}

/// Whether player `p` goes into a diff batch against the last-sent positions
/// `last`: it is new, or it moved.
pub open spec fn changed(last: Map<u8, NetPosition>, p: PlayerView) -> bool {
    !last.contains_key(p.id) || last[p.id] != p.position
}

/// The diff batch of the players `ps` against the last-sent positions `last`,
/// in the order of `ps`.
pub open spec fn diff_batch(ps: Seq<PlayerView>, last: Map<u8, NetPosition>) -> Seq<PositionMap>
    decreases ps.len(),
{
    if ps.len() == 0 {
        Seq::empty()
    } else {
        let rest = diff_batch(ps.drop_last(), last);
        if changed(last, ps.last()) {
            rest.push(PositionMap { id: ps.last().id, pos: ps.last().position })
        } else {
            rest
        }
    }
}

/// The last-sent positions once the players `ps` have been examined.
pub open spec fn record(last: Map<u8, NetPosition>, ps: Seq<PlayerView>) -> Map<u8, NetPosition>
    decreases ps.len(),
{
    if ps.len() == 0 {
        last
    } else {
        record(last, ps.drop_last()).insert(ps.last().id, ps.last().position)
    }
}

/// The positions of a last-sent table with one slot per id.
pub open spec fn slots_map(s: Seq<Option<NetPosition>>) -> Map<u8, NetPosition> {
    Map::new(|id: u8| s[id as int] is Some, |id: u8| s[id as int]->Some_0)
}

proof fn lemma_record_other(last: Map<u8, NetPosition>, ps: Seq<PlayerView>, id: u8)
    requires
        !has_id(ps, id),
    ensures
        record(last, ps).contains_key(id) == last.contains_key(id),
        last.contains_key(id) ==> record(last, ps)[id] == last[id],
    decreases ps.len(),
{
    if ps.len() > 0 {
        let q = ps.drop_last();
        assert(ps[ps.len() - 1].id != id);
        assert(!has_id(q, id)) by {
            if has_id(q, id) {
                let i = choose|i: int| 0 <= i < q.len() && #[trigger] q[i].id == id;
                assert(ps[i].id == id);
            }
        }
        lemma_record_other(last, q, id);
    }
}

/// A registered-or-pending connection table, the id counter and the
/// last-sent positions of the diff broadcast.
pub struct Host {
    pub sessions: Vec<Session>,
    pub next_id: u16,
    pub last_sent: Vec<Option<NetPosition>>,
}

impl Host {
    pub open spec fn wf(&self) -> bool {
        &&& conns_unique(self.sessions@)
        &&& 1 <= self.next_id <= 256
        &&& self.last_sent@.len() == 256
        &&& forall|i: int|
            0 <= i < self.sessions@.len() && (#[trigger] self.sessions@[i]).id is Some
                ==> self.sessions@[i].id->Some_0 < self.next_id
    }

    /// The positions last broadcast, by id.
    pub open spec fn last_map(&self) -> Map<u8, NetPosition> {
        slots_map(self.last_sent@)
    }

    /// A server with no sessions, ids counted from 1 (0 is the host's own
    /// player) and nothing broadcast yet.
    pub fn new() -> (r: Host)
        ensures
            r.wf(),
            r.sessions@.len() == 0,
            r.next_id == 1,
            r.last_map() == Map::<u8, NetPosition>::empty(),
    {
        let mut last_sent: Vec<Option<NetPosition>> = Vec::new();
        let mut i: usize = 0;
        while i < 256
            invariant
                i <= 256,
                last_sent@.len() == i,
                forall|j: int| 0 <= j < i ==> last_sent@[j] is None,
            decreases 256 - i,
        {
            last_sent.push(None);
            i = i + 1;
        }
        let r = Host { sessions: Vec::new(), next_id: 1, last_sent };
        assert(r.last_map() =~= Map::<u8, NetPosition>::empty());
        r
    }

    /// The index of the session of `conn`, if any.
    pub fn find_session(&self, conn: u64) -> (r: Option<usize>)
        requires
            conns_unique(self.sessions@),
        ensures
            r is Some <==> has_conn(self.sessions@, conn),
            r matches Some(k) ==> k == conn_index(self.sessions@, conn) && k < self.sessions@.len(),
    {
        let mut i: usize = 0;
        while i < self.sessions.len()
            invariant
                i <= self.sessions@.len(),
                conns_unique(self.sessions@),
                forall|j: int| 0 <= j < i ==> #[trigger] self.sessions@[j].conn != conn,
            decreases self.sessions@.len() - i,
        {
            if self.sessions[i].conn == conn {
                assert(self.sessions@[i as int].conn == conn);
                assert(has_conn(self.sessions@, conn));
                let ghost j = conn_index(self.sessions@, conn);
                assert(0 <= j < self.sessions@.len() && self.sessions@[j].conn == conn);
                proof {
                    if j != i as int {
                        assert(self.sessions@[j].conn != self.sessions@[i as int].conn);
                    }
                }
                return Some(i);
            }
            i = i + 1;
        }
        None
    }

    /// A transport-level connection was accepted: it gets a session with no
    /// player yet. A key already held is left as it is.
    pub fn on_accepted(&mut self, conn: u64)
        requires
            old(self).wf(),
        ensures
            final(self).wf(),
            final(self).next_id == old(self).next_id,
            final(self).last_sent@ == old(self).last_sent@,
            final(self).sessions@ == if has_conn(old(self).sessions@, conn) {
                old(self).sessions@
            } else {
                old(self).sessions@.push(Session { conn, id: None })
            },
    {
        if self.find_session(conn).is_none() {
            self.sessions.push(Session { conn, id: None });
            proof {
                let ss = self.sessions@;
                assert forall|i: int, j: int|
                    0 <= i < ss.len() && 0 <= j < ss.len() && i != j implies #[trigger] ss[i].conn
                    != #[trigger] ss[j].conn by {
                    if i < ss.len() - 1 && j < ss.len() - 1 {
                        assert(old(self).sessions@[i].conn != old(self).sessions@[j].conn);
                    } else if i < ss.len() - 1 {
                        assert(ss[i] == old(self).sessions@[i]);
                    } else {
                        assert(ss[j] == old(self).sessions@[j]);
                    }
                }
            }
        }
    }

    /// `msg` for every session, but the one of `except`.
    fn fan_out_exec(&self, except: Option<u64>, msg: &Commands) -> (r: Vec<Outgoing>)
        ensures
            outgoing_view(r@) == fan_out(self.sessions@, except, msg@),
    {
        let mut out: Vec<Outgoing> = Vec::new();
        let mut i: usize = 0;
        while i < self.sessions.len()
            invariant
                i <= self.sessions@.len(),
                outgoing_view(out@) == fan_out(self.sessions@.take(i as int), except, msg@),
            decreases self.sessions@.len() - i,
        {
            let s = self.sessions[i];
            let ghost t1 = self.sessions@.take(i + 1);
            assert(t1.drop_last() == self.sessions@.take(i as int));
            let skip = match except {
                Some(c) => c == s.conn,
                None => false,
            };
            if !skip {
                let m = copy_command(msg);
                out.push(Outgoing { to: s.conn, msg: m });
                assert(outgoing_view(out@) =~= fan_out(self.sessions@.take(i as int), except, msg@).push(
                    OutgoingView { to: s.conn, msg: msg@ },
                ));
            }
            i = i + 1;
        }
        assert(self.sessions@.take(self.sessions@.len() as int) == self.sessions@);
        out
    }
}

/// The player id of the session of `conn`, if it has one.
pub open spec fn session_id(ss: Seq<Session>, conn: u64) -> Option<u8> {
    if has_conn(ss, conn) {
        ss[conn_index(ss, conn)].id
    } else {
        None
    }
}

/// What a successful registration of player `p` on `conn` sends: to `conn`
/// the map, then every player with the assigned id; to every other session
/// the new player; and last, to `conn`, the ready marker.
pub open spec fn registration_out(
    ss: Seq<Session>,
    conn: u64,
    buildings: Seq<NetBuilding>,
    players: Seq<PlayerView>,
    p: PlayerView,
) -> Seq<OutgoingView> {
    seq![
        OutgoingView { to: conn, msg: CommandsView::SendMap(buildings) },
        OutgoingView { to: conn, msg: CommandsView::SendPlayerInfo { players, your_num: p.id } },
    ] + fan_out(ss, Some(conn), CommandsView::AddPlayer(p)) + seq![
        OutgoingView { to: conn, msg: CommandsView::AllowClientReady(p.id) },
    ]
}

/// What `RegisterPlayer(name, colour)` on `conn` does to a host `h0` and a
/// state `s0`, giving `h1`, `s1` and the messages `out`. When the host can
/// register `conn`, the next id goes to its session, the counter moves on, a
/// player with that id is placed at the spawn point, and the registration
/// messages are sent; otherwise nothing changes and nothing is sent.
pub open spec fn register_effect(
    h0: Host,
    s0: GameState,
    h1: Host,
    s1: GameState,
    conn: u64,
    name: Seq<char>,
    colour: NetColour,
    out: Seq<OutgoingView>,
) -> bool {
    if h0.can_register(conn) {
        let id = h0.next_id as u8;
        let p = PlayerView { position: s0.spawn, id, name, colour };
        &&& h1.next_id == h0.next_id + 1
        &&& h1.sessions@ == h0.sessions@.update(conn_index(h0.sessions@, conn), Session { conn, id: Some(id) })
        &&& s1.player_map() == s0.player_map().insert(id, p)
        &&& out == registration_out(h1.sessions@, conn, s0.buildings@, players_view(s1.players@), p)
    } else {
        &&& h1.next_id == h0.next_id
        &&& h1.sessions@ == h0.sessions@
        &&& s1.players@ == s0.players@
        &&& out.len() == 0
    }
}

/// The players after `Move(pos)` arrives on `conn`.
pub open spec fn move_effect(h: Host, m: Map<u8, PlayerView>, conn: u64, pos: NetPosition) -> Map<u8, PlayerView> {
    match session_id(h.sessions@, conn) {
        Some(id) => move_spec(m, id, pos),
        None => m,
    }
}

impl Host {
    /// The session of `conn` is registered as `id`.
    pub open spec fn registered_as(&self, conn: u64, id: u8) -> bool {
        session_id(self.sessions@, conn) == Some(id)
    }

    /// A registration on `conn` is accepted: the connection is known, has no
    /// player yet, and an id is left.
    pub open spec fn can_register(&self, conn: u64) -> bool {
        &&& has_conn(self.sessions@, conn)
        &&& self.sessions@[conn_index(self.sessions@, conn)].id is None
        &&& self.next_id <= 255
    }

    /// `RegisterPlayer` on `conn`. When accepted, the next id is assigned to
    /// the session, a player with that id is placed at the spawn point, and the
    /// registration messages are returned; otherwise nothing changes and
    /// nothing is sent.
    pub fn register(&mut self, state: &mut GameState, conn: u64, info: RegistrationInfo) -> (out: Vec<Outgoing>)
        requires
            old(self).wf(),
            old(state).wf(),
        ensures
            final(self).wf(),
            final(state).wf(),
            final(self).last_sent@ == old(self).last_sent@,
            final(state).buildings@ == old(state).buildings@,
            final(state).spawn == old(state).spawn,
            final(state).own_player == old(state).own_player,
            final(state).ready == old(state).ready,
            register_effect(*old(self), *old(state), *final(self), *final(state), conn, info.name@, info.colour, outgoing_view(out@)),
    {
        let k = match self.find_session(conn) {
            Some(k) => k,
            None => {
                return Vec::new();
            },
        };
        if self.sessions[k].id.is_some() || self.next_id > 255 {
            return Vec::new();
        }
        let id = self.next_id as u8;
        self.next_id = self.next_id + 1;
        self.sessions.set(k, Session { conn, id: Some(id) });
        proof {
            let ss = self.sessions@;
            let os = old(self).sessions@;
            assert forall|i: int, j: int|
                0 <= i < ss.len() && 0 <= j < ss.len() && i != j implies #[trigger] ss[i].conn
                != #[trigger] ss[j].conn by {
                assert(os[i].conn != os[j].conn);
            }
            assert forall|i: int| 0 <= i < ss.len() && (#[trigger] ss[i]).id is Some implies ss[i].id->Some_0
                < self.next_id by {
                if i != k {
                    assert(ss[i] == os[i]);
                }
            }
        }
        let player = NetPlayer { position: state.spawn, id, name: info.name, colour: info.colour };
        let announce = Commands::AddPlayer(player.duplicate());
        state.add_player(player);
        let mut out: Vec<Outgoing> = Vec::new();
        out.push(Outgoing { to: conn, msg: Commands::SendMap(WorldMap { buildings: copy_buildings(&state.buildings) }) });
        out.push(
            Outgoing {
                to: conn,
                msg: Commands::SendPlayerInfo(NetPlayerInfo { players: copy_players(&state.players), your_num: id }),
            },
        );
        let ghost head = outgoing_view(out@);
        let mut others = self.fan_out_exec(Some(conn), &announce);
        let ghost mid = outgoing_view(others@);
        out.append(&mut others);
        out.push(Outgoing { to: conn, msg: Commands::AllowClientReady(id) });
        proof {
            let p = PlayerView { position: old(state).spawn, id, name: info.name@, colour: info.colour };
            assert(outgoing_view(out@) =~= head + mid + seq![
                OutgoingView { to: conn, msg: CommandsView::AllowClientReady(id) },
            ]);
            assert(outgoing_view(out@) =~= registration_out(
                self.sessions@,
                conn,
                old(state).buildings@,
                players_view(state.players@),
                p,
            ));
        }
        out
    }

    /// `Move` on `conn`: the position of the session's player is replaced;
    /// a session without a player, or a player no longer held, changes
    /// nothing.
    pub fn apply_move(&self, state: &mut GameState, conn: u64, pos: NetPosition)
        requires
            self.wf(),
            old(state).wf(),
        ensures
            final(state).wf(),
            final(state).player_map() == move_effect(*self, old(state).player_map(), conn, pos),
            final(state).buildings@ == old(state).buildings@,
            final(state).spawn == old(state).spawn,
            final(state).own_player == old(state).own_player,
            final(state).ready == old(state).ready,
    {
        if let Some(k) = self.find_session(conn) {
            if let Some(id) = self.sessions[k].id {
                let _ = state.move_player(id, pos);
            }
        }
    }

    /// The transport reported that `conn` went away: its session is dropped
    /// and, when it had a player, that player is removed and every remaining
    /// session is told.
    pub fn on_disconnected(&mut self, state: &mut GameState, conn: u64) -> (out: Vec<Outgoing>)
        requires
            old(self).wf(),
            old(state).wf(),
        ensures
            final(self).wf(),
            final(state).wf(),
            final(self).next_id == old(self).next_id,
            final(self).last_sent@ == old(self).last_sent@,
            final(state).buildings@ == old(state).buildings@,
            final(state).spawn == old(state).spawn,
            final(state).own_player == old(state).own_player,
            final(state).ready == old(state).ready,
            final(self).sessions@ == if has_conn(old(self).sessions@, conn) {
                old(self).sessions@.remove(conn_index(old(self).sessions@, conn))
            } else {
                old(self).sessions@
            },
            !has_conn(final(self).sessions@, conn),
            match session_id(old(self).sessions@, conn) {
                Some(id) => {
                    &&& final(state).player_map() == old(state).player_map().remove(id)
                    &&& outgoing_view(out@) == fan_out(
                        final(self).sessions@,
                        None,
                        CommandsView::RemovePlayer(id),
                    )
                },
                None => {
                    &&& final(state).players@ == old(state).players@
                    &&& out@.len() == 0
                },
            },
    {
        let k = match self.find_session(conn) {
            Some(k) => k,
            None => {
                return Vec::new();
            },
        };
        let s = self.sessions.remove(k);
        proof {
            let ss = self.sessions@;
            let os = old(self).sessions@;
            assert forall|i: int| 0 <= i < ss.len() implies #[trigger] ss[i] == (if i < k {
                os[i]
            } else {
                os[i + 1]
            }) by {}
            assert forall|i: int, j: int|
                0 <= i < ss.len() && 0 <= j < ss.len() && i != j implies #[trigger] ss[i].conn
                != #[trigger] ss[j].conn by {
                let a = if i < k { i } else { i + 1 };
                let b = if j < k { j } else { j + 1 };
                assert(os[a].conn != os[b].conn);
            }
            assert forall|i: int| 0 <= i < ss.len() && (#[trigger] ss[i]).id is Some implies ss[i].id->Some_0
                < self.next_id by {
                let a = if i < k { i } else { i + 1 };
                assert(os[a] == ss[i]);
            }
            if has_conn(ss, conn) {
                let i = choose|i: int| 0 <= i < ss.len() && #[trigger] ss[i].conn == conn;
                let a = if i < k { i } else { i + 1 };
                assert(os[a].conn == os[k as int].conn);
            }
        }
        match s.id {
            Some(id) => {
                let _ = state.remove_player(id);
                self.fan_out_exec(None, &Commands::RemovePlayer(id))
            },
            None => Vec::new(),
        }
    }

    /// Diffs the players of `state` against the positions last broadcast:
    /// returns, in the order of `state.players`, each player that is new or
    /// moved since, and records every examined position as sent.
    pub fn diff_positions(&mut self, state: &GameState) -> (batch: Vec<PositionMap>)
        requires
            old(self).wf(),
            state.wf(),
        ensures
            final(self).wf(),
            final(self).sessions@ == old(self).sessions@,
            final(self).next_id == old(self).next_id,
            batch@ == diff_batch(players_view(state.players@), old(self).last_map()),
            final(self).last_map() == record(old(self).last_map(), players_view(state.players@)),
    {
        let ghost pv = players_view(state.players@);
        let ghost last0 = self.last_map();
        let mut batch: Vec<PositionMap> = Vec::new();
        let mut i: usize = 0;
        while i < state.players.len()
            invariant
                self.wf(),
                self.sessions@ == old(self).sessions@,
                self.next_id == old(self).next_id,
                pv == players_view(state.players@),
                ids_unique(pv),
                i <= pv.len(),
                batch@ == diff_batch(pv.take(i as int), last0),
                self.last_map() == record(last0, pv.take(i as int)),
            decreases pv.len() - i,
        {
            let id = state.players[i].id;
            let pos = state.players[i].position;
            let ghost t0 = pv.take(i as int);
            let ghost t1 = pv.take(i + 1);
            proof {
                assert(t1.drop_last() == t0);
                assert(t1.last() == pv[i as int]);
                assert(!has_id(t0, id)) by {
                    if has_id(t0, id) {
                        let j = choose|j: int| 0 <= j < t0.len() && #[trigger] t0[j].id == id;
                        assert(pv[j].id == pv[i as int].id);
                    }
                }
                lemma_record_other(last0, t0, id);
            }
            let is_changed = match self.last_sent[id as usize] {
                None => true,
                Some(q) => !q.equals(&pos),
            };
            if is_changed {
                batch.push(PositionMap { id, pos });
            }
            self.last_sent.set(id as usize, Some(pos));
            assert(self.last_map() =~= record(last0, t0).insert(id, pos));
            i = i + 1;
        }
        assert(pv.take(pv.len() as int) == pv);
        batch
    }

    /// A scheduler tick: the diff batch goes, as one `MovedPlayers` message,
    /// to every session; an empty batch sends nothing.
    pub fn on_tick(&mut self, state: &GameState) -> (out: Vec<Outgoing>)
        requires
            old(self).wf(),
            state.wf(),
        ensures
            final(self).wf(),
            final(self).sessions@ == old(self).sessions@,
            final(self).next_id == old(self).next_id,
            final(self).last_map() == record(old(self).last_map(), players_view(state.players@)),
            ({
                let batch = diff_batch(players_view(state.players@), old(self).last_map());
                outgoing_view(out@) == if batch.len() == 0 {
                    Seq::empty()
                } else {
                    fan_out(old(self).sessions@, None, CommandsView::MovedPlayers(batch))
                }
            }),
    {
        let batch = self.diff_positions(state);
        if batch.len() == 0 {
            let out: Vec<Outgoing> = Vec::new();
            assert(outgoing_view(out@) =~= Seq::empty());
            out
        } else {
            self.fan_out_exec(None, &Commands::MovedPlayers(batch))
        }
    }
}

impl Host {
    /// Dispatches one message received on `conn`. Only `RegisterPlayer` and
    /// `Move` are meant for the server; every other message is ignored.
    pub fn handle_command(&mut self, state: &mut GameState, conn: u64, cmd: Commands) -> (out: Vec<Outgoing>)
        requires
            old(self).wf(),
            old(state).wf(),
        ensures
            final(self).wf(),
            final(state).wf(),
            final(self).last_sent@ == old(self).last_sent@,
            final(state).buildings@ == old(state).buildings@,
            final(state).spawn == old(state).spawn,
            final(state).own_player == old(state).own_player,
            final(state).ready == old(state).ready,
            match cmd@ {
                CommandsView::RegisterPlayer { name, colour } => register_effect(
                    *old(self),
                    *old(state),
                    *final(self),
                    *final(state),
                    conn,
                    name,
                    colour,
                    outgoing_view(out@),
                ),
                CommandsView::Move(pos) => {
                    &&& final(self).sessions@ == old(self).sessions@
                    &&& final(self).next_id == old(self).next_id
                    &&& final(state).player_map() == move_effect(*old(self), old(state).player_map(), conn, pos)
                    &&& out@.len() == 0
                },
                _ => {
                    &&& final(self).sessions@ == old(self).sessions@
                    &&& final(self).next_id == old(self).next_id
                    &&& final(state).players@ == old(state).players@
                    &&& out@.len() == 0
                },
            },
    {
        match cmd {
            Commands::RegisterPlayer(info) => self.register(state, conn, info),
            Commands::Move(pos) => {
                self.apply_move(state, conn, pos);
                Vec::new()
            },
            _ => Vec::new(),
        }
    }

    /// A frame arrived on `conn`. A frame that does not decode is dropped
    /// and changes nothing; otherwise its message is dispatched.
    pub fn on_message(&mut self, state: &mut GameState, conn: u64, data: &[u8]) -> (out: Vec<Outgoing>)
        requires
            old(self).wf(),
            old(state).wf(),
        ensures
            final(self).wf(),
            final(state).wf(),
            final(self).last_sent@ == old(self).last_sent@,
            final(state).buildings@ == old(state).buildings@,
            final(state).spawn == old(state).spawn,
            final(state).own_player == old(state).own_player,
            final(state).ready == old(state).ready,
            !(decode_spec(data@) matches Some(CommandsView::RegisterPlayer { .. })) && !(decode_spec(
                data@,
            ) matches Some(CommandsView::Move(_))) ==> {
                &&& final(self).sessions@ == old(self).sessions@
                &&& final(self).next_id == old(self).next_id
                &&& final(state).players@ == old(state).players@
                &&& out@.len() == 0
            },
            decode_spec(data@) matches Some(CommandsView::RegisterPlayer { name, colour }) ==> register_effect(
                *old(self),
                *old(state),
                *final(self),
                *final(state),
                conn,
                name,
                colour,
                outgoing_view(out@),
            ),
            decode_spec(data@) matches Some(CommandsView::Move(pos)) ==> {
                &&& final(self).sessions@ == old(self).sessions@
                &&& final(self).next_id == old(self).next_id
                &&& final(state).player_map() == move_effect(*old(self), old(state).player_map(), conn, pos)
                &&& out@.len() == 0
            },
    {
        match decode(data) {
            Some(cmd) => self.handle_command(state, conn, cmd),
            None => Vec::new(),
        }
    }
}

/// Registration ids are fresh and increasing: an accepted registration
/// assigns an id above every id held by a live session, and the counter
/// moves past it, so no later registration in the same run can get it again.
pub proof fn lemma_registration_id_fresh(
    h0: Host,
    s0: GameState,
    h1: Host,
    s1: GameState,
    conn: u64,
    name: Seq<char>,
    colour: NetColour,
    out: Seq<OutgoingView>,
)
    requires
        h0.wf(),
        h0.can_register(conn),
        register_effect(h0, s0, h1, s1, conn, name, colour, out),
    ensures
        h1.registered_as(conn, h0.next_id as u8),
        forall|i: int| 0 <= i < h0.sessions@.len() && (#[trigger] h0.sessions@[i]).id is Some
            ==> h0.sessions@[i].id->Some_0 < h0.next_id,
        h1.next_id == h0.next_id + 1,
{
    let k = conn_index(h0.sessions@, conn);
    let ss = h1.sessions@;
    assert(ss[k].conn == conn);
    assert(has_conn(ss, conn));
    let j = conn_index(ss, conn);
    if j != k {
        assert(h0.sessions@[j].conn != h0.sessions@[k].conn);
    }
}

/// The players after the `Move`s `moves`, each an id and a position, are
/// applied in order.
pub open spec fn apply_moves(m: Map<u8, PlayerView>, moves: Seq<(u8, NetPosition)>) -> Map<u8, PlayerView>
    decreases moves.len(),
{
    if moves.len() == 0 {
        m
    } else {
        move_spec(apply_moves(m, moves.drop_last()), moves.last().0, moves.last().1)
    }
}

proof fn lemma_moves_keep_ids(m: Map<u8, PlayerView>, moves: Seq<(u8, NetPosition)>)
    ensures
        apply_moves(m, moves).dom() == m.dom(),
    decreases moves.len(),
{
    if moves.len() > 0 {
        lemma_moves_keep_ids(m, moves.drop_last());
        let prev = apply_moves(m, moves.drop_last());
        if prev.contains_key(moves.last().0) {
            assert(prev.insert(moves.last().0, PlayerView { position: moves.last().1, ..prev[moves.last().0] }).dom() =~= prev.dom());
        }
    }
}

/// Last write wins: after any sequence of moves, a held player is at the
/// position of the last move that names its id, whatever moves of other
/// players come between.
pub proof fn lemma_last_move_wins(m: Map<u8, PlayerView>, moves: Seq<(u8, NetPosition)>, id: u8, k: int)
    requires
        m.contains_key(id),
        0 <= k < moves.len(),
        moves[k].0 == id,
        forall|j: int| k < j < moves.len() ==> (#[trigger] moves[j]).0 != id,
    ensures
        apply_moves(m, moves).contains_key(id),
        apply_moves(m, moves)[id].position == moves[k].1,
    decreases moves.len(),
{
    lemma_moves_keep_ids(m, moves);
    lemma_moves_keep_ids(m, moves.drop_last());
    if k < moves.len() - 1 {
        let q = moves.drop_last();
        assert forall|j: int| k < j < q.len() implies (#[trigger] q[j]).0 != id by {
            assert(q[j] == moves[j]);
        }
        lemma_last_move_wins(m, q, id, k);
        assert(moves.last() == moves[moves.len() - 1]);
    }
}

/// A player's id is in a diff batch exactly when the player is held and is
/// new or moved since the last-sent positions; each entry carries the
/// player's current position.
pub proof fn lemma_diff_membership(ps: Seq<PlayerView>, last: Map<u8, NetPosition>, id: u8)
    requires
        ids_unique(ps),
    ensures
        (exists|k: int| 0 <= k < diff_batch(ps, last).len() && #[trigger] diff_batch(ps, last)[k].id == id)
            <==> (players_map(ps).contains_key(id) && changed(last, players_map(ps)[id])),
        forall|k: int| 0 <= k < diff_batch(ps, last).len() && #[trigger] diff_batch(ps, last)[k].id == id
            ==> diff_batch(ps, last)[k].pos == players_map(ps)[id].position,
    decreases ps.len(),
{
    let b = diff_batch(ps, last);
    if ps.len() == 0 {
        assert(!has_id(ps, id));
    } else {
        let q = ps.drop_last();
        let l = ps.last();
        assert(ps == q.push(l));
        assert(ids_unique(q)) by {
            assert forall|i: int, j: int| 0 <= i < q.len() && 0 <= j < q.len() && i != j implies #[trigger] q[i].id
                != #[trigger] q[j].id by {
                assert(ps[i].id != ps[j].id);
            }
        }
        assert(!has_id(q, l.id)) by {
            if has_id(q, l.id) {
                let j = choose|j: int| 0 <= j < q.len() && #[trigger] q[j].id == l.id;
                assert(ps[j].id == ps[ps.len() - 1].id);
            }
        }
        lemma_players_map_push(q, l);
        lemma_diff_membership(q, last, id);
        let bq = diff_batch(q, last);
        if id == l.id {
            assert(!players_map(q).contains_key(id));
            if changed(last, l) {
                assert(b[bq.len() as int].id == id);
            }
        } else {
            if exists|k: int| 0 <= k < bq.len() && #[trigger] bq[k].id == id {
                let k = choose|k: int| 0 <= k < bq.len() && #[trigger] bq[k].id == id;
                assert(b[k] == bq[k]);
            }
            if exists|k: int| 0 <= k < b.len() && #[trigger] b[k].id == id {
                let k = choose|k: int| 0 <= k < b.len() && #[trigger] b[k].id == id;
                if k < bq.len() {
                    assert(b[k] == bq[k]);
                }
            }
        }
        assert forall|k: int| 0 <= k < b.len() && #[trigger] b[k].id == id implies b[k].pos
            == players_map(ps)[id].position by {
            if k < bq.len() {
                assert(b[k] == bq[k]);
            }
        }
    }
}

/// Once a player is no longer held, no diff batch names it and a `Move` for
/// its id changes nothing.
pub proof fn lemma_removed_player_stays_out(ps: Seq<PlayerView>, last: Map<u8, NetPosition>, id: u8, pos: NetPosition)
    requires
        ids_unique(ps),
        !players_map(ps).contains_key(id),
    ensures
        forall|k: int| 0 <= k < diff_batch(ps, last).len() ==> #[trigger] diff_batch(ps, last)[k].id != id,
        move_spec(players_map(ps), id, pos) == players_map(ps),
{
    lemma_diff_membership(ps, last, id);
}

fn copy_players(v: &Vec<NetPlayer>) -> (r: Vec<NetPlayer>)
    ensures
        players_view(r@) == players_view(v@),
{
    let mut out: Vec<NetPlayer> = Vec::new();
    let mut i: usize = 0;
    while i < v.len()
        invariant
            i <= v@.len(),
            out@.len() == i,
            forall|j: int| 0 <= j < i ==> (#[trigger] out@[j])@ == v@[j]@,
        decreases v@.len() - i,
    {
        out.push(v[i].duplicate());
        i = i + 1;
    }
    assert(players_view(out@) =~= players_view(v@));
    out
}

fn copy_buildings(v: &Vec<NetBuilding>) -> (r: Vec<NetBuilding>)
    ensures
        r@ == v@,
{
    let mut out: Vec<NetBuilding> = Vec::new();
    let mut i: usize = 0;
    while i < v.len()
        invariant
            i <= v@.len(),
            out@ == v@.take(i as int),
        decreases v@.len() - i,
    {
        out.push(v[i]);
        assert(out@ =~= v@.take(i + 1));
        i = i + 1;
    }
    assert(v@.take(v@.len() as int) == v@);
    out
}

fn copy_positions(v: &Vec<PositionMap>) -> (r: Vec<PositionMap>)
    ensures
        r@ == v@,
{
    let mut out: Vec<PositionMap> = Vec::new();
    let mut i: usize = 0;
    while i < v.len()
        invariant
            i <= v@.len(),
            out@ == v@.take(i as int),
        decreases v@.len() - i,
    {
        out.push(v[i]);
        assert(out@ =~= v@.take(i + 1));
        i = i + 1;
    }
    assert(v@.take(v@.len() as int) == v@);
    out
}

/// A copy of `c` with the same view.
pub fn copy_command(c: &Commands) -> (r: Commands)
    ensures
        r@ == c@,
{
    match c {
        Commands::RegisterPlayer(info) => Commands::RegisterPlayer(
            RegistrationInfo { name: info.name.clone(), colour: info.colour },
        ),
        Commands::Move(p) => Commands::Move(*p),
        Commands::MovedPlayers(v) => Commands::MovedPlayers(copy_positions(v)),
        Commands::SendMap(m) => Commands::SendMap(WorldMap { buildings: copy_buildings(&m.buildings) }),
        Commands::SendPlayerInfo(info) => Commands::SendPlayerInfo(
            NetPlayerInfo { players: copy_players(&info.players), your_num: info.your_num },
        ),
        Commands::AddPlayer(p) => Commands::AddPlayer(p.duplicate()),
        Commands::RemovePlayer(id) => Commands::RemovePlayer(*id),
        Commands::AllowClientReady(id) => Commands::AllowClientReady(*id),
    }
}

} // verus!
