//! The server's reaction to what its connections and its host ask for.
//!
//! The table of peers remembers which connection joined as which player.
//! `GameSession::handle_command` decides, for one command, how the game and
//! the table change and what goes out: replies to the asking connection,
//! broadcasts to every peer, writers to register or drop, and the
//! countdown to start or stop. Sockets, writers and clocks stay with the
//! caller, who carries the effects out in order.
use vstd::prelude::*;
use vstd::string::*;
use crate::codes::{Direction, ErrorCode, FlagStatus, GamePhase};
use crate::game::{
    event_message, TickEvent, flag_at_rest, has_player, inputs_by_id, lobby_entry, players_by_id, Flag, GameSession, Player,
    ORIGIN,
};
use crate::lobby::{join_verdict, trimmed, JoinDecision};
use crate::messages::{ClientMessage, ServerMessage, ServerMessageModel};

verus! {

/// A joined connection: the player it joined as.
#[derive(Debug, Clone, Copy, PartialEq, Eq, Structural)]
pub struct Peer {
    pub player_id: u16,
    pub connection_id: u64,
}

/// The joined connections, at most one per player id.
#[derive(Debug)]
pub struct PeerTable {
    pub peers: Vec<Peer>,
}

pub open spec fn ids_distinct(s: Seq<Peer>) -> bool {
    forall|i: int, j: int| 0 <= i < j < s.len() ==> s[i].player_id != s[j].player_id
}

/// Whether some entry is for this player.
pub open spec fn has_peer(s: Seq<Peer>, id: u16) -> bool {
    exists|i: int| 0 <= i < s.len() && s[i].player_id == id
}

/// The table as a map from player id to connection id.
pub open spec fn peer_map(s: Seq<Peer>) -> Map<u16, u64> {
    Map::new(
        |id: u16| has_peer(s, id),
        |id: u16| s[choose|i: int| 0 <= i < s.len() && s[i].player_id == id].connection_id,
    )
}

/// Whether some player joined through this connection.
pub open spec fn joined_through(m: Map<u16, u64>, connection_id: u64) -> bool {
    exists|p: u16| m.dom().contains(p) && m[p] == connection_id
}

impl View for PeerTable {
    type V = Map<u16, u64>;

    open spec fn view(&self) -> Map<u16, u64> {
        peer_map(self.peers@)
    }
}

proof fn lemma_peer_entry(s: Seq<Peer>, j: int)
    requires
        ids_distinct(s),
        0 <= j < s.len(),
    ensures
        peer_map(s).dom().contains(s[j].player_id),
        peer_map(s)[s[j].player_id] == s[j].connection_id,
{
    let id = s[j].player_id;
    assert(has_peer(s, id));
    let k = choose|i: int| 0 <= i < s.len() && s[i].player_id == id;
    if k != j {
        if k < j {
            assert(s[k].player_id != s[j].player_id);
        } else {
            assert(s[j].player_id != s[k].player_id);
        }
    }
}

impl PeerTable {
    pub open spec fn wf(&self) -> bool {
        ids_distinct(self.peers@)
    }

    pub fn new() -> (r: PeerTable)
        ensures
            r.wf(),
            r@ == Map::<u16, u64>::empty(),
    {
        let r = PeerTable { peers: Vec::new() };
        assert(r@ =~= Map::<u16, u64>::empty());
        r
    }

    /// Whether some player joined through this connection.
    pub fn already_joined(&self, connection_id: u64) -> (r: bool)
        requires
            self.wf(),
        ensures
            r == joined_through(self@, connection_id),
    {
        match self.player_of(connection_id) {
            Some(_) => true,
            None => false,
        }
    }

    /// A player who joined through this connection, if any.
    pub fn player_of(&self, connection_id: u64) -> (r: Option<u16>)
        requires
            self.wf(),
        ensures
            match r {
                Some(p) => self@.dom().contains(p) && self@[p] == connection_id,
                None => !joined_through(self@, connection_id),
            },
    {
        let mut i: usize = 0;
        while i < self.peers.len()
            invariant
                i <= self.peers@.len(),
                self.wf(),
                forall|j: int| 0 <= j < i ==> self.peers@[j].connection_id != connection_id,
            decreases self.peers.len() - i,
        {
            if self.peers[i].connection_id == connection_id {
                proof {
                    lemma_peer_entry(self.peers@, i as int);
                }
                return Some(self.peers[i].player_id);
            }
            i = i + 1;
        }
        proof {
            if joined_through(self@, connection_id) {
                let p = choose|p: u16| self@.dom().contains(p) && self@[p] == connection_id;
                let k = choose|k: int| 0 <= k < self.peers@.len() && self.peers@[k].player_id == p;
                lemma_peer_entry(self.peers@, k);
            }
        }
        None
    }

    /// Whether this player joined through this connection.
    pub fn matches(&self, connection_id: u64, player_id: u16) -> (r: bool)
        requires
            self.wf(),
        ensures
            r == (self@.dom().contains(player_id) && self@[player_id] == connection_id),
    {
        let mut i: usize = 0;
        while i < self.peers.len()
            invariant
                i <= self.peers@.len(),
                self.wf(),
                forall|j: int| 0 <= j < i ==> self.peers@[j].player_id != player_id,
            decreases self.peers.len() - i,
        {
            if self.peers[i].player_id == player_id {
                proof {
                    lemma_peer_entry(self.peers@, i as int);
                }
                return self.peers[i].connection_id == connection_id;
            }
            i = i + 1;
        }
        false
    }

    /// Records that this player joined through this connection, replacing
    /// an earlier entry for the player.
    pub fn insert(&mut self, player_id: u16, connection_id: u64)
        requires
            old(self).wf(),
        ensures
            final(self).wf(),
            final(self)@ == old(self)@.insert(player_id, connection_id),
    {
        let ghost s = self.peers@;
        let mut i: usize = 0;
        while i < self.peers.len()
            invariant
                i <= self.peers@.len(),
                self.peers@ == s,
                old(self).peers@ == s,
                ids_distinct(s),
                forall|j: int| 0 <= j < i ==> s[j].player_id != player_id,
            decreases self.peers.len() - i,
        {
            if self.peers[i].player_id == player_id {
                let entry = Peer { player_id, connection_id };
                self.peers[i] = entry;
                proof {
                    let t = self.peers@;
                    assert(t == s.update(i as int, entry));
                    assert(ids_distinct(t)) by {
                        assert forall|a: int, b: int| 0 <= a < b < t.len() implies t[a].player_id
                            != t[b].player_id by {
                            assert(s[a].player_id != s[b].player_id);
                        }
                    }
                    assert forall|k: u16| #![auto] peer_map(t).dom().contains(k) == peer_map(
                        s,
                    ).insert(player_id, connection_id).dom().contains(k) by {
                        if has_peer(t, k) {
                            let a = choose|a: int| 0 <= a < t.len() && t[a].player_id == k;
                            assert(s[a].player_id == t[a].player_id);
                        }
                        if has_peer(s, k) {
                            let a = choose|a: int| 0 <= a < s.len() && s[a].player_id == k;
                            assert(t[a].player_id == s[a].player_id);
                        }
                        assert(t[i as int].player_id == player_id);
                    }
                    assert forall|k: u16| #[trigger]
                        peer_map(t).dom().contains(k) implies peer_map(t)[k] == peer_map(s).insert(
                        player_id,
                        connection_id,
                    )[k] by {
                        let a = choose|a: int| 0 <= a < t.len() && t[a].player_id == k;
                        lemma_peer_entry(t, a);
                        if a != i {
                            lemma_peer_entry(s, a);
                        }
                    }
                    assert(peer_map(t) =~= peer_map(s).insert(player_id, connection_id));
                }
                return;
            }
            i = i + 1;
        }
        let entry = Peer { player_id, connection_id };
        self.peers.push(entry);
        proof {
            let t = self.peers@;
            assert(t == s.push(entry));
            assert(ids_distinct(t)) by {
                assert forall|a: int, b: int| 0 <= a < b < t.len() implies t[a].player_id
                    != t[b].player_id by {
                    if b < s.len() {
                        assert(t[a] == s[a] && t[b] == s[b]);
                    } else {
                        assert(t[a] == s[a]);
                    }
                }
            }
            assert forall|k: u16| #![auto] peer_map(t).dom().contains(k) == peer_map(s).insert(
                player_id,
                connection_id,
            ).dom().contains(k) by {
                if has_peer(t, k) {
                    let a = choose|a: int| 0 <= a < t.len() && t[a].player_id == k;
                    if a < s.len() {
                        assert(s[a] == t[a]);
                    }
                }
                if has_peer(s, k) {
                    let a = choose|a: int| 0 <= a < s.len() && s[a].player_id == k;
                    assert(t[a] == s[a]);
                }
                assert(t[s.len() as int].player_id == player_id);
            }
            assert forall|k: u16| #[trigger]
                peer_map(t).dom().contains(k) implies peer_map(t)[k] == peer_map(s).insert(
                player_id,
                connection_id,
            )[k] by {
                let a = choose|a: int| 0 <= a < t.len() && t[a].player_id == k;
                lemma_peer_entry(t, a);
                if a < s.len() {
                    assert(t[a] == s[a]);
                    lemma_peer_entry(s, a);
                }
            }
            assert(peer_map(t) =~= peer_map(s).insert(player_id, connection_id));
        }
    }

    /// Forgets the entry of this player, if there is one.
    pub fn remove(&mut self, player_id: u16)
        requires
            old(self).wf(),
        ensures
            final(self).wf(),
            final(self)@ == old(self)@.remove(player_id),
    {
        let ghost s = self.peers@;
        let mut i: usize = 0;
        while i < self.peers.len()
            invariant
                i <= self.peers@.len(),
                self.peers@ == s,
                old(self).peers@ == s,
                ids_distinct(s),
                forall|j: int| 0 <= j < i ==> s[j].player_id != player_id,
            decreases self.peers.len() - i,
        {
            if self.peers[i].player_id == player_id {
                self.peers.remove(i);
                proof {
                    let t = self.peers@;
                    assert(t == s.remove(i as int));
                    assert(ids_distinct(t)) by {
                        assert forall|a: int, b: int| 0 <= a < b < t.len() implies t[a].player_id
                            != t[b].player_id by {
                            let sa = if a < i { a } else { a + 1 };
                            let sb = if b < i { b } else { b + 1 };
                            assert(t[a] == s[sa] && t[b] == s[sb]);
                        }
                    }
                    assert forall|k: u16| #![auto] peer_map(t).dom().contains(k) == peer_map(
                        s,
                    ).remove(player_id).dom().contains(k) by {
                        if has_peer(t, k) {
                            let a = choose|a: int| 0 <= a < t.len() && t[a].player_id == k;
                            let sa = if a < i { a } else { a + 1 };
                            assert(t[a] == s[sa]);
                            assert(sa != i);
                        }
                        if has_peer(s, k) && k != player_id {
                            let a = choose|a: int| 0 <= a < s.len() && s[a].player_id == k;
                            assert(a != i);
                            let ta = if a < i { a } else { a - 1 };
                            assert(t[ta] == s[a]);
                        }
                    }
                    assert forall|k: u16| #[trigger]
                        peer_map(t).dom().contains(k) implies peer_map(t)[k] == peer_map(s).remove(
                        player_id,
                    )[k] by {
                        let a = choose|a: int| 0 <= a < t.len() && t[a].player_id == k;
                        let sa = if a < i { a } else { a + 1 };
                        assert(t[a] == s[sa]);
                        lemma_peer_entry(t, a);
                        lemma_peer_entry(s, sa);
                    }
                    assert(peer_map(t) =~= peer_map(s).remove(player_id));
                }
                return;
            }
            i = i + 1;
        }
        assert(peer_map(s) =~= peer_map(s).remove(player_id));
    }

    /// Forgets every entry.
    pub fn clear(&mut self)
        ensures
            final(self).wf(),
            final(self)@ == Map::<u16, u64>::empty(),
    {
        self.peers.clear();
        assert(self@ =~= Map::<u16, u64>::empty());
    }
}

// ================================================================= commands

/// What a connection or the host asks the server for.
#[derive(Debug)]
pub enum ServerCommand {
    /// The host starts the countdown.
    StartGame,
    /// The host ends the game and sends everybody away.
    EndGame,
    Join { connection_id: u64, name: String },
    Input { connection_id: u64, player_id: u16, direction: Direction },
    Interact { connection_id: u64, player_id: u16 },
    Leave { connection_id: u64, player_id: u16 },
    /// The connection closed; the player it last spoke for, if any.
    ConnectionClosed { connection_id: u64, player_id: Option<u16> },
}

/// What the server does in answer to a command, in order.
#[derive(Debug)]
pub enum ServerEffect {
    /// Send to the connection that issued the command.
    Reply(ServerMessage),
    /// Send to every registered peer.
    Broadcast(ServerMessage),
    /// Register the issuing connection's writer under this player.
    Register(u16),
    /// Drop the writer of this player.
    Unregister(u16),
    /// Close every peer's connection and forget all writers.
    ShutdownAll,
    /// Start the countdown at this many seconds.
    StartCountdown(u8),
    /// Stop the countdown.
    StopCountdown,
}

pub enum ServerEffectModel {
    Reply(ServerMessageModel),
    Broadcast(ServerMessageModel),
    Register(u16),
    Unregister(u16),
    ShutdownAll,
    StartCountdown(u8),
    StopCountdown,
}

impl View for ServerEffect {
    type V = ServerEffectModel;

    open spec fn view(&self) -> ServerEffectModel {
        match self {
            ServerEffect::Reply(m) => ServerEffectModel::Reply(m@),
            ServerEffect::Broadcast(m) => ServerEffectModel::Broadcast(m@),
            ServerEffect::Register(p) => ServerEffectModel::Register(*p),
            ServerEffect::Unregister(p) => ServerEffectModel::Unregister(*p),
            ServerEffect::ShutdownAll => ServerEffectModel::ShutdownAll,
            ServerEffect::StartCountdown(s) => ServerEffectModel::StartCountdown(*s),
            ServerEffect::StopCountdown => ServerEffectModel::StopCountdown,
        }
    }
}

pub open spec fn effects_view(v: Seq<ServerEffect>) -> Seq<ServerEffectModel> {
    v.map_values(|e: ServerEffect| e@)
}

/// The text sent to every peer when the host ends the game.
pub open spec fn host_ended_text() -> Seq<char> {
    "El host finalizo la partida"@
}

/// The text sent to a connection that asks to join a second time.
pub open spec fn joined_twice_text() -> Seq<char> {
    "La conexion ya realizo JOIN"@
}

/// The lobby as it is broadcast: the phase and every player's entry.
pub open spec fn lobby_message(state: GamePhase, players: Seq<Player>) -> ServerMessageModel {
    ServerMessageModel::LobbyState {
        state,
        players: players.map_values(|p: Player| lobby_entry(p)),
    }
}

/// A player who just joined under this id and name: at the centre,
/// standing still, without the flag.
pub open spec fn fresh_player(p: Player, player_id: u16, name: Seq<char>) -> bool {
    &&& p.player_id == player_id
    &&& p.name@ == name
    &&& p.x == ORIGIN
    &&& p.y == ORIGIN
    &&& p.direction == Direction::Idle
    &&& !p.has_flag
}

/// `after` is `before` with a player added under the next id.
pub open spec fn player_added(before: GameSession, after: GameSession, name: Seq<char>) -> bool {
    let id = before.next_player_id;
    &&& players_by_id(after.players@) == players_by_id(before.players@).insert(
        id,
        players_by_id(after.players@)[id],
    )
    &&& fresh_player(players_by_id(after.players@)[id], id, name)
    &&& after.next_player_id == if id == u16::MAX {
        u16::MAX
    } else {
        (id + 1) as u16
    }
    &&& after.game_id == before.game_id
    &&& after.server_name == before.server_name
    &&& after.state == before.state
    &&& after.tick == before.tick
    &&& after.flag == before.flag
    &&& after.winner_id == before.winner_id
    &&& after.pending_inputs == before.pending_inputs
    &&& after.pending_interacts == before.pending_interacts
}

/// `after` is `before` without this player and what they had queued; if
/// they held the flag, it lies where they stood.
pub open spec fn player_removed(before: GameSession, after: GameSession, player_id: u16) -> bool {
    let gone = players_by_id(before.players@)[player_id];
    &&& players_by_id(after.players@) == players_by_id(before.players@).remove(player_id)
    &&& inputs_by_id(after.pending_inputs@) == inputs_by_id(before.pending_inputs@).remove(
        player_id,
    )
    &&& after.pending_interacts@.to_set() == before.pending_interacts@.to_set().remove(player_id)
    &&& after.flag == if has_player(before.players@, player_id) && gone.has_flag {
        Flag { status: FlagStatus::Dropped, carrier_id: 0, x: gone.x, y: gone.y }
    } else {
        before.flag
    }
    &&& after.game_id == before.game_id
    &&& after.server_name == before.server_name
    &&& after.state == before.state
    &&& after.tick == before.tick
    &&& after.next_player_id == before.next_player_id
    &&& after.winner_id == before.winner_id
}

/// `after` is `before` with a direction queued for this player.
pub open spec fn input_queued(
    before: GameSession,
    after: GameSession,
    player_id: u16,
    direction: Direction,
) -> bool {
    &&& inputs_by_id(after.pending_inputs@) == inputs_by_id(before.pending_inputs@).insert(
        player_id,
        direction,
    )
    &&& after.players == before.players
    &&& after.pending_interacts == before.pending_interacts
    &&& after.flag == before.flag
    &&& after.game_id == before.game_id
    &&& after.server_name == before.server_name
    &&& after.state == before.state
    &&& after.tick == before.tick
    &&& after.next_player_id == before.next_player_id
    &&& after.winner_id == before.winner_id
}

/// `after` is `before` with an interaction queued for this player.
pub open spec fn interact_queued(before: GameSession, after: GameSession, player_id: u16) -> bool {
    &&& after.pending_interacts@.to_set() == before.pending_interacts@.to_set().insert(player_id)
    &&& after.players == before.players
    &&& after.pending_inputs == before.pending_inputs
    &&& after.flag == before.flag
    &&& after.game_id == before.game_id
    &&& after.server_name == before.server_name
    &&& after.state == before.state
    &&& after.tick == before.tick
    &&& after.next_player_id == before.next_player_id
    &&& after.winner_id == before.winner_id
}

/// A player leaves: if they were in the game, they are removed, their
/// writer dropped, and every peer told, then sent the new lobby. Their
/// queued input and interaction go in any case.
pub open spec fn disconnect_outcome(
    before: GameSession,
    after: GameSession,
    peers_before: Map<u16, u64>,
    peers_after: Map<u16, u64>,
    player_id: u16,
    effects: Seq<ServerEffectModel>,
) -> bool {
    &&& player_removed(before, after, player_id)
    &&& if has_player(before.players@, player_id) {
        &&& peers_after == peers_before.remove(player_id)
        &&& effects == seq![
            ServerEffectModel::Unregister(player_id),
            ServerEffectModel::Broadcast(ServerMessageModel::PlayerDisconnected { player_id }),
            ServerEffectModel::Broadcast(lobby_message(after.state, after.players@)),
        ]
    } else {
        &&& peers_after == peers_before
        &&& effects.len() == 0
    }
}

/// No connection is registered for two players.
pub open spec fn connections_distinct(peers: Map<u16, u64>) -> bool {
    forall|p: u16, q: u16|
        #![trigger peers[p], peers[q]]
        peers.dom().contains(p) && peers.dom().contains(q) && p != q ==> peers[p] != peers[q]
}

/// The registered connections are exactly those of the players in the
/// game.
pub open spec fn registered_players(game: GameSession, peers: Map<u16, u64>) -> bool {
    peers.dom() == players_by_id(game.players@).dom()
}

impl GameSession {
    /// The lobby message for the game as it stands.
    pub fn lobby_state_message(&self) -> (r: ServerMessage)
        ensures
            r@ == lobby_message(self.state, self.players@),
    {
        ServerMessage::LobbyState { state: self.state, players: self.lobby_players() }
    }

    /// Removes a player who left and says what goes out.
    fn disconnect(&mut self, peers: &mut PeerTable, player_id: u16) -> (r: Vec<ServerEffect>)
        requires
            old(self).wf(),
            old(peers).wf(),
        ensures
            final(self).wf(),
            final(peers).wf(),
            old(self).flag_ok() ==> final(self).flag_ok(),
            registered_players(*old(self), old(peers)@) ==> registered_players(
                *final(self),
                final(peers)@,
            ),
            disconnect_outcome(
                *old(self),
                *final(self),
                old(peers)@,
                final(peers)@,
                player_id,
                effects_view(r@),
            ),
    {
        let mut effects: Vec<ServerEffect> = Vec::new();
        let ghost before = *self;
        let ghost peers_before = peers@;
        match self.remove_player(player_id) {
            Some(_) => {
                peers.remove(player_id);
                assert(registered_players(before, peers_before) ==> peers@.dom() =~= players_by_id(
                    self.players@,
                ).dom());
                effects.push(ServerEffect::Unregister(player_id));
                effects.push(ServerEffect::Broadcast(ServerMessage::PlayerDisconnected { player_id }));
                let lobby = self.lobby_state_message();
                effects.push(ServerEffect::Broadcast(lobby));
                assert(effects_view(effects@) =~= seq![
                    ServerEffectModel::Unregister(player_id),
                    ServerEffectModel::Broadcast(ServerMessageModel::PlayerDisconnected { player_id }),
                    ServerEffectModel::Broadcast(lobby_message(self.state, self.players@)),
                ]);
            },
            None => {
                assert(effects_view(effects@) =~= Seq::<ServerEffectModel>::empty());
                assert(players_by_id(self.players@).dom() =~= players_by_id(before.players@).dom());
            },
        }
        effects
    }

    /// Carries out one command on the game and the peer table, and says
    /// what goes out, in order:
    /// - start: the countdown starts (from the waiting phase, with at least
    ///   one player) and the lobby is broadcast; otherwise nothing happens;
    /// - end: the countdown stops, the lobby is broadcast as cancelled, then
    ///   an error that the host ended the game; every connection is closed,
    ///   and the game goes back to an empty lobby;
    /// - join: an error to a connection that already joined; a rejection
    ///   when the game does not wait for players, the trimmed name is empty
    ///   or longer than 20 characters, or the lobby is full; otherwise the
    ///   player is added under the next id, the connection registered, the
    ///   acceptance sent back and the lobby broadcast;
    /// - input and interaction: queued, when the player joined through
    ///   this connection and the game is running;
    /// - leave, or a closed connection: the player (the one named, if they
    ///   joined through this connection; else one who joined through it)
    ///   is removed and everybody told.
    pub fn handle_command(
        &mut self,
        peers: &mut PeerTable,
        command: ServerCommand,
        maximum_players: u16,
        countdown_seconds: u8,
    ) -> (r: Vec<ServerEffect>)
        requires
            old(self).wf(),
            old(peers).wf(),
        ensures
            final(self).wf(),
            final(peers).wf(),
            registered_players(*old(self), old(peers)@) ==> registered_players(
                *final(self),
                final(peers)@,
            ),
            old(self).flag_ok() && !has_player(old(self).players@, old(self).next_player_id)
                ==> final(self).flag_ok(),
            connections_distinct(old(peers)@) ==> connections_distinct(final(peers)@),
            command matches ServerCommand::ConnectionClosed { connection_id, player_id: None }
                ==> (registered_players(*old(self), old(peers)@) && connections_distinct(
                old(peers)@,
            ) ==> !joined_through(final(peers)@, connection_id)),
            match command {
                ServerCommand::StartGame => {
                    let started = old(self).state == GamePhase::Waiting && old(self).players@.len()
                        > 0;
                    &&& final(peers)@ == old(peers)@
                    &&& final(self).state == if started {
                        GamePhase::Starting
                    } else {
                        old(self).state
                    }
                    &&& final(self).players == old(self).players
                    &&& final(self).server_name == old(self).server_name
                    &&& final(self).flag == old(self).flag
                    &&& final(self).game_id == old(self).game_id
                    &&& final(self).tick == old(self).tick
                    &&& final(self).next_player_id == old(self).next_player_id
                    &&& final(self).winner_id == old(self).winner_id
                    &&& final(self).pending_inputs == old(self).pending_inputs
                    &&& final(self).pending_interacts == old(self).pending_interacts
                    &&& effects_view(r@) == if started {
                        seq![
                            ServerEffectModel::StartCountdown(countdown_seconds),
                            ServerEffectModel::Broadcast(
                                lobby_message(GamePhase::Starting, old(self).players@),
                            ),
                        ]
                    } else {
                        Seq::<ServerEffectModel>::empty()
                    }
                },
                ServerCommand::EndGame => {
                    &&& final(peers)@ == Map::<u16, u64>::empty()
                    &&& final(self).state == GamePhase::Waiting
                    &&& final(self).tick == 0
                    &&& final(self).winner_id.is_none()
                    &&& final(self).players@.len() == 0
                    &&& final(self).pending_inputs@.len() == 0
                    &&& final(self).pending_interacts@.len() == 0
                    &&& final(self).flag == flag_at_rest()
                    &&& final(self).game_id == old(self).game_id
                    &&& final(self).server_name == old(self).server_name
                    &&& final(self).next_player_id == old(self).next_player_id
                    &&& effects_view(r@) == seq![
                        ServerEffectModel::StopCountdown,
                        ServerEffectModel::Broadcast(
                            lobby_message(GamePhase::Cancelled, old(self).players@),
                        ),
                        ServerEffectModel::Broadcast(
                            ServerMessageModel::Error {
                                code: ErrorCode::GameFinished,
                                description: host_ended_text(),
                            },
                        ),
                        ServerEffectModel::ShutdownAll,
                    ]
                },
                ServerCommand::Join { connection_id, name } => match join_verdict(
                    joined_through(old(peers)@, connection_id),
                    old(self).state,
                    trimmed(name@),
                    old(self).players@.len(),
                    maximum_players,
                ) {
                    None => {
                        &&& *final(self) == *old(self)
                        &&& final(peers)@ == old(peers)@
                        &&& effects_view(r@) == seq![
                            ServerEffectModel::Reply(
                                ServerMessageModel::Error {
                                    code: ErrorCode::InvalidInput,
                                    description: joined_twice_text(),
                                },
                            ),
                        ]
                    },
                    Some(Some(reason)) => {
                        &&& *final(self) == *old(self)
                        &&& final(peers)@ == old(peers)@
                        &&& effects_view(r@) == seq![
                            ServerEffectModel::Reply(ServerMessageModel::JoinRejected { reason }),
                        ]
                    },
                    Some(None) => {
                        let id = old(self).next_player_id;
                        &&& player_added(*old(self), *final(self), trimmed(name@))
                        &&& final(peers)@ == old(peers)@.insert(id, connection_id)
                        &&& effects_view(r@) == seq![
                            ServerEffectModel::Register(id),
                            ServerEffectModel::Reply(
                                ServerMessageModel::JoinAccepted {
                                    player_id: id,
                                    game_id: old(self).game_id,
                                },
                            ),
                            ServerEffectModel::Broadcast(
                                lobby_message(final(self).state, final(self).players@),
                            ),
                        ]
                    },
                },
                ServerCommand::Input { connection_id, player_id, direction } => {
                    &&& final(peers)@ == old(peers)@
                    &&& r@.len() == 0
                    &&& if old(peers)@.dom().contains(player_id) && old(peers)@[player_id]
                        == connection_id && old(self).state == GamePhase::Running {
                        input_queued(*old(self), *final(self), player_id, direction)
                    } else {
                        *final(self) == *old(self)
                    }
                },
                ServerCommand::Interact { connection_id, player_id } => {
                    &&& final(peers)@ == old(peers)@
                    &&& r@.len() == 0
                    &&& if old(peers)@.dom().contains(player_id) && old(peers)@[player_id]
                        == connection_id && old(self).state == GamePhase::Running {
                        interact_queued(*old(self), *final(self), player_id)
                    } else {
                        *final(self) == *old(self)
                    }
                },
                ServerCommand::Leave { connection_id, player_id } => if old(peers)@.dom().contains(
                    player_id,
                ) && old(peers)@[player_id] == connection_id {
                    disconnect_outcome(
                        *old(self),
                        *final(self),
                        old(peers)@,
                        final(peers)@,
                        player_id,
                        effects_view(r@),
                    )
                } else {
                    &&& *final(self) == *old(self)
                    &&& final(peers)@ == old(peers)@
                    &&& r@.len() == 0
                },
                ServerCommand::ConnectionClosed { connection_id, player_id } => match player_id {
                    Some(p) => if old(peers)@.dom().contains(p) && old(peers)@[p] == connection_id {
                        disconnect_outcome(
                            *old(self),
                            *final(self),
                            old(peers)@,
                            final(peers)@,
                            p,
                            effects_view(r@),
                        )
                    } else {
                        &&& *final(self) == *old(self)
                        &&& final(peers)@ == old(peers)@
                        &&& r@.len() == 0
                    },
                    None => if joined_through(old(peers)@, connection_id) {
                        exists|p: u16|
                            old(peers)@.dom().contains(p) && old(peers)@[p] == connection_id
                                && disconnect_outcome(
                                *old(self),
                                *final(self),
                                old(peers)@,
                                final(peers)@,
                                p,
                                effects_view(r@),
                            )
                    } else {
                        &&& *final(self) == *old(self)
                        &&& final(peers)@ == old(peers)@
                        &&& r@.len() == 0
                    },
                },
            },
    {
        let mut effects: Vec<ServerEffect> = Vec::new();
        match command {
            ServerCommand::StartGame => {
                if self.start_countdown() {
                    effects.push(ServerEffect::StartCountdown(countdown_seconds));
                    let lobby = self.lobby_state_message();
                    effects.push(ServerEffect::Broadcast(lobby));
                    assert(effects_view(effects@) =~= seq![
                        ServerEffectModel::StartCountdown(countdown_seconds),
                        ServerEffectModel::Broadcast(lobby_message(self.state, self.players@)),
                    ]);
                } else {
                    assert(effects_view(effects@) =~= Seq::<ServerEffectModel>::empty());
                }
            },
            ServerCommand::EndGame => {
                effects.push(ServerEffect::StopCountdown);
                self.state = GamePhase::Cancelled;
                let lobby = self.lobby_state_message();
                effects.push(ServerEffect::Broadcast(lobby));
                let description = String::from_str("El host finalizo la partida");
                effects.push(
                    ServerEffect::Broadcast(
                        ServerMessage::Error { code: ErrorCode::GameFinished, description },
                    ),
                );
                effects.push(ServerEffect::ShutdownAll);
                assert(effects_view(effects@) =~= seq![
                    ServerEffectModel::StopCountdown,
                    ServerEffectModel::Broadcast(lobby_message(GamePhase::Cancelled, self.players@)),
                    ServerEffectModel::Broadcast(
                        ServerMessageModel::Error {
                            code: ErrorCode::GameFinished,
                            description: host_ended_text(),
                        },
                    ),
                    ServerEffectModel::ShutdownAll,
                ]);
                peers.clear();
                self.reset_to_waiting();
                assert(players_by_id(self.players@).dom() =~= Set::<u16>::empty());
            },
            ServerCommand::Join { connection_id, name } => {
                let already = peers.already_joined(connection_id);
                match self.join_decision(already, name.as_str(), maximum_players) {
                    JoinDecision::AlreadyJoined => {
                        let description = String::from_str("La conexion ya realizo JOIN");
                        effects.push(
                            ServerEffect::Reply(
                                ServerMessage::Error { code: ErrorCode::InvalidInput, description },
                            ),
                        );
                        assert(effects_view(effects@) =~= seq![
                            ServerEffectModel::Reply(
                                ServerMessageModel::Error {
                                    code: ErrorCode::InvalidInput,
                                    description: joined_twice_text(),
                                },
                            ),
                        ]);
                    },
                    JoinDecision::Rejected(reason) => {
                        effects.push(ServerEffect::Reply(ServerMessage::JoinRejected { reason }));
                        assert(effects_view(effects@) =~= seq![
                            ServerEffectModel::Reply(ServerMessageModel::JoinRejected { reason }),
                        ]);
                    },
                    JoinDecision::Accepted(trimmed_name) => {
                        let ghost before = *self;
                        let player_id = self.add_player(trimmed_name);
                        proof {
                            assert(players_by_id(self.players@)[player_id] == crate::game::new_player(
                                player_id,
                                trimmed_name,
                            ));
                        }
                        peers.insert(player_id, connection_id);
                        assert(peers@.dom() =~= old(peers)@.dom().insert(player_id));
                        assert(players_by_id(self.players@).dom() =~= players_by_id(
                            before.players@,
                        ).dom().insert(player_id));
                        effects.push(ServerEffect::Register(player_id));
                        effects.push(
                            ServerEffect::Reply(
                                ServerMessage::JoinAccepted { player_id, game_id: self.game_id },
                            ),
                        );
                        let lobby = self.lobby_state_message();
                        effects.push(ServerEffect::Broadcast(lobby));
                        assert(effects_view(effects@) =~= seq![
                            ServerEffectModel::Register(player_id),
                            ServerEffectModel::Reply(
                                ServerMessageModel::JoinAccepted {
                                    player_id,
                                    game_id: before.game_id,
                                },
                            ),
                            ServerEffectModel::Broadcast(lobby_message(self.state, self.players@)),
                        ]);
                    },
                }
            },
            ServerCommand::Input { connection_id, player_id, direction } => {
                if peers.matches(connection_id, player_id) && self.state == GamePhase::Running {
                    self.queue_input(player_id, direction);
                }
            },
            ServerCommand::Interact { connection_id, player_id } => {
                if peers.matches(connection_id, player_id) && self.state == GamePhase::Running {
                    self.queue_interact(player_id);
                }
            },
            ServerCommand::Leave { connection_id, player_id } => {
                if peers.matches(connection_id, player_id) {
                    effects = self.disconnect(peers, player_id);
                }
            },
            ServerCommand::ConnectionClosed { connection_id, player_id } => match player_id {
                Some(p) => {
                    if peers.matches(connection_id, p) {
                        effects = self.disconnect(peers, p);
                    }
                },
                None => {
                    match peers.player_of(connection_id) {
                        Some(p) => {
                            effects = self.disconnect(peers, p);
                        },
                        None => {},
                    }
                },
            },
        }
        effects
    }
}

// ================================================================= ticks

pub open spec fn messages_view(v: Seq<ServerMessage>) -> Seq<ServerMessageModel> {
    v.map_values(|m: ServerMessage| m@)
}

/// What every peer is sent after a tick, in order: each pickup or theft,
/// then the game state, then the game-over message if the tick ended the
/// game.
pub fn tick_broadcasts(
    events: &Vec<TickEvent>,
    state: ServerMessage,
    game_over: Option<ServerMessage>,
) -> (r: Vec<ServerMessage>)
    ensures
        messages_view(r@) == events@.map_values(|e: TickEvent| event_message(e)) + seq![state@]
            + match game_over {
            Some(m) => seq![m@],
            None => Seq::<ServerMessageModel>::empty(),
        },
{
    let mut out: Vec<ServerMessage> = Vec::new();
    let mut i: usize = 0;
    while i < events.len()
        invariant
            i <= events@.len(),
            messages_view(out@) == events@.take(i as int).map_values(
                |e: TickEvent| event_message(e),
            ),
        decreases events.len() - i,
    {
        let ghost before = out@;
        let m = events[i].message();
        out.push(m);
        proof {
            assert(messages_view(out@) =~= messages_view(before).push(m@));
            assert(events@.take(i + 1) =~= events@.take(i as int).push(events@[i as int]));
            assert(events@.take(i + 1).map_values(|e: TickEvent| event_message(e))
                =~= events@.take(i as int).map_values(|e: TickEvent| event_message(e)).push(
                event_message(events@[i as int]),
            ));
        }
        i = i + 1;
    }
    assert(events@.take(events@.len() as int) =~= events@);
    let ghost with_events = out@;
    let ghost sv = state@;
    out.push(state);
    assert(messages_view(out@) =~= messages_view(with_events).push(sv));
    let ghost with_state = out@;
    match game_over {
        Some(m) => {
            let ghost mv = m@;
            out.push(m);
            assert(messages_view(out@) =~= messages_view(with_state).push(mv));
            assert(messages_view(out@) =~= messages_view(with_events) + seq![sv] + seq![mv]);
        },
        None => {
            assert(messages_view(out@) =~= messages_view(with_events) + seq![sv]
                + Seq::<ServerMessageModel>::empty());
        },
    }
    out
}

// ================================================================= connections

/// What arrived on a client's connection.
#[derive(Debug)]
pub enum ConnectionEvent {
    Message(ClientMessage),
    /// A frame that is not a client message.
    Undecodable,
    /// The connection closed or failed.
    Closed,
}

/// What the reader of a connection does with what arrived.
#[derive(Debug)]
pub struct ConnectionStep {
    /// The commands to hand to the server, in order.
    pub commands: Vec<ServerCommand>,
    /// An answer to send straight back on this connection.
    pub reply: Option<ServerMessage>,
    /// Whether to stop reading this connection.
    pub stop: bool,
}

/// The text sent back for a frame that is not a client message.
pub open spec fn undecodable_text() -> Seq<char> {
    "Mensaje invalido"@
}

/// Turns what arrived on a connection into commands. `bound` is the player
/// the connection last spoke for, through an input or an interaction; a
/// closed connection reports it. A leave is followed by the connection's
/// closing; a frame that is not a client message is answered with an
/// encoding error.
pub fn connection_step(connection_id: u64, bound: &mut Option<u16>, event: ConnectionEvent) -> (r:
    ConnectionStep)
    ensures
        match event {
            ConnectionEvent::Message(ClientMessage::Join { name }) => {
                &&& r.commands@ == seq![ServerCommand::Join { connection_id, name }]
                &&& r.reply.is_none()
                &&& !r.stop
                &&& *final(bound) == *old(bound)
            },
            ConnectionEvent::Message(ClientMessage::Input { player_id, direction }) => {
                &&& r.commands@ == seq![ServerCommand::Input { connection_id, player_id, direction }]
                &&& r.reply.is_none()
                &&& !r.stop
                &&& *final(bound) == Some(player_id)
            },
            ConnectionEvent::Message(ClientMessage::Interact { player_id }) => {
                &&& r.commands@ == seq![ServerCommand::Interact { connection_id, player_id }]
                &&& r.reply.is_none()
                &&& !r.stop
                &&& *final(bound) == Some(player_id)
            },
            ConnectionEvent::Message(ClientMessage::Leave { player_id }) => {
                &&& r.commands@ == seq![
                    ServerCommand::Leave { connection_id, player_id },
                    ServerCommand::ConnectionClosed { connection_id, player_id: Some(player_id) },
                ]
                &&& r.reply.is_none()
                &&& r.stop
                &&& *final(bound) == *old(bound)
            },
            ConnectionEvent::Undecodable => {
                &&& r.commands@.len() == 0
                &&& r.reply matches Some(m) && m@ == (ServerMessageModel::Error {
                    code: ErrorCode::InvalidEncoding,
                    description: undecodable_text(),
                })
                &&& !r.stop
                &&& *final(bound) == *old(bound)
            },
            ConnectionEvent::Closed => {
                &&& r.commands@ == seq![
                    ServerCommand::ConnectionClosed { connection_id, player_id: *old(bound) },
                ]
                &&& r.reply.is_none()
                &&& r.stop
                &&& *final(bound) == *old(bound)
            },
        },
{
    let mut commands: Vec<ServerCommand> = Vec::new();
    match event {
        ConnectionEvent::Message(ClientMessage::Join { name }) => {
            commands.push(ServerCommand::Join { connection_id, name });
            ConnectionStep { commands, reply: None, stop: false }
        },
        ConnectionEvent::Message(ClientMessage::Input { player_id, direction }) => {
            *bound = Some(player_id);
            commands.push(ServerCommand::Input { connection_id, player_id, direction });
            ConnectionStep { commands, reply: None, stop: false }
        },
        ConnectionEvent::Message(ClientMessage::Interact { player_id }) => {
            *bound = Some(player_id);
            commands.push(ServerCommand::Interact { connection_id, player_id });
            ConnectionStep { commands, reply: None, stop: false }
        },
        ConnectionEvent::Message(ClientMessage::Leave { player_id }) => {
            commands.push(ServerCommand::Leave { connection_id, player_id });
            commands.push(
                ServerCommand::ConnectionClosed { connection_id, player_id: Some(player_id) },
            );
            ConnectionStep { commands, reply: None, stop: true }
        },
        ConnectionEvent::Undecodable => {
            let description = String::from_str("Mensaje invalido");
            ConnectionStep {
                commands,
                reply: Some(ServerMessage::Error { code: ErrorCode::InvalidEncoding, description }),
                stop: false,
            }
        },
        ConnectionEvent::Closed => {
            commands.push(ServerCommand::ConnectionClosed { connection_id, player_id: *bound });
            ConnectionStep { commands, reply: None, stop: true }
        },
    }
}

} // verus!
