//! The authoritative game: lobby, countdown, flag pickup and theft, and
//! victory by leaving the circle with the flag.
//!
//! Positions are kept as opaque coordinates (`u32`) that the simulation
//! layer encodes and decodes; the rules here never compute with them, they
//! only copy them (the flag follows its carrier, a dropped flag stays where
//! its carrier left). Everything that needs the geometry (moving, distances)
//! reaches the rules as plain results: new coordinates, and for each player
//! whether they are in reach of the flag and whether they are outside the
//! circle.
use vstd::prelude::*;
use crate::codes::{Direction, FlagStatus, GameOverReason, GamePhase};
use crate::messages::{
    lobby_players_view, player_wires_view, LobbyPlayer, LobbyPlayerModel, PlayerStateWire,
    PlayerWire, PlayerWireModel, ServerMessage, ServerMessageModel,
};

verus! {

/// The coordinate that stands for the centre of the map.
pub const ORIGIN: u32 = 0;

#[derive(Debug, Clone)]
pub struct Player {
    pub player_id: u16,
    pub name: String,
    pub x: u32,
    pub y: u32,
    pub direction: Direction,
    pub has_flag: bool,
}

#[derive(Debug, Clone, Copy, PartialEq, Eq, Structural)]
pub struct Flag {
    pub status: FlagStatus,
    /// The carrier's id, or 0 when nobody carries the flag.
    pub carrier_id: u16,
    pub x: u32,
    pub y: u32,
}

/// A flag pickup or theft that happened during a tick.
#[derive(Debug, Clone, Copy, PartialEq, Eq, Structural)]
pub enum TickEvent {
    FlagPickedUp { tick: u32, player_id: u16 },
    FlagStolen { tick: u32, previous_carrier_id: u16, new_carrier_id: u16 },
}

#[derive(Debug)]
pub struct GameSession {
    pub game_id: u16,
    pub server_name: String,
    pub state: GamePhase,
    pub tick: u32,
    /// The players, ordered by id.
    pub players: Vec<Player>,
    pub next_player_id: u16,
    pub flag: Flag,
    pub winner_id: Option<u16>,
    /// The last direction each player asked for since the previous tick.
    pub pending_inputs: Vec<(u16, Direction)>,
    /// The players who asked to interact since the previous tick, ordered.
    pub pending_interacts: Vec<u16>,
}

/// The flag at the centre of the map, carried by nobody.
pub open spec fn flag_at_rest() -> Flag {
    Flag { status: FlagStatus::Available, carrier_id: 0, x: ORIGIN, y: ORIGIN }
}

// ================================================================= views

pub open spec fn ids_increasing(s: Seq<Player>) -> bool {
    forall|i: int, j: int| 0 <= i < j < s.len() ==> s[i].player_id < s[j].player_id
}

pub open spec fn strictly_increasing(s: Seq<u16>) -> bool {
    forall|i: int, j: int| 0 <= i < j < s.len() ==> s[i] < s[j]
}

pub open spec fn keys_distinct(s: Seq<(u16, Direction)>) -> bool {
    forall|i: int, j: int| 0 <= i < j < s.len() ==> s[i].0 != s[j].0
}

/// Whether a player with this id is in the list.
pub open spec fn has_player(s: Seq<Player>, id: u16) -> bool {
    exists|i: int| 0 <= i < s.len() && s[i].player_id == id
}

/// The position of the player with this id (meaningful when there is one).
pub open spec fn index_of(s: Seq<Player>, id: u16) -> int {
    choose|i: int| 0 <= i < s.len() && s[i].player_id == id
}

/// The players as a map from id to player.
pub open spec fn players_by_id(s: Seq<Player>) -> Map<u16, Player> {
    Map::new(|id: u16| has_player(s, id), |id: u16| s[index_of(s, id)])
}

/// The queued inputs as a map from player id to direction.
pub open spec fn inputs_by_id(s: Seq<(u16, Direction)>) -> Map<u16, Direction> {
    Map::new(
        |id: u16| exists|i: int| 0 <= i < s.len() && s[i].0 == id,
        |id: u16| s[choose|i: int| 0 <= i < s.len() && s[i].0 == id].1,
    )
}

/// A player who just joined: at the centre, standing still, without the
/// flag.
pub open spec fn new_player(player_id: u16, name: String) -> Player {
    Player { player_id, name, x: ORIGIN, y: ORIGIN, direction: Direction::Idle, has_flag: false }
}

/// A player placed at a spawn point, standing still, without the flag.
pub open spec fn spawned(p: Player, at: (u32, u32)) -> Player {
    Player { x: at.0, y: at.1, direction: Direction::Idle, has_flag: false, ..p }
}

/// The lobby entry of a player.
pub open spec fn lobby_entry(p: Player) -> LobbyPlayerModel {
    LobbyPlayerModel { player_id: p.player_id, name: p.name@ }
}

/// The flag is held by someone exactly when it is carried (or was carried
/// out of the circle); then its carrier is a player, that player holds it
/// and nobody else does. Otherwise its carrier id is 0.
pub open spec fn flag_consistent(players: Seq<Player>, flag: Flag) -> bool {
    let held = flag.status == FlagStatus::Carried || flag.status == FlagStatus::Outside;
    &&& held ==> has_player(players, flag.carrier_id)
    &&& !held ==> flag.carrier_id == 0
    &&& forall|i: int|
        0 <= i < players.len() ==> (#[trigger] players[i].has_flag <==> (held && flag.carrier_id
            == players[i].player_id))
}

impl GameSession {
    /// The structure the operations rely on: players ordered by id, ids
    /// from 1 up to the next id to hand out, queued inputs keyed once per
    /// player, queued interactions ordered and without repeats.
    pub open spec fn wf(&self) -> bool {
        &&& ids_increasing(self.players@)
        &&& 1 <= self.next_player_id
        &&& forall|i: int|
            0 <= i < self.players@.len() ==> 1 <= #[trigger] self.players@[i].player_id && (
            self.players@[i].player_id < self.next_player_id || self.next_player_id == u16::MAX)
        &&& keys_distinct(self.pending_inputs@)
        &&& strictly_increasing(self.pending_interacts@)
    }

    /// Every field but the players is the same in both.
    pub open spec fn same_outside_players(&self, other: &GameSession) -> bool {
        &&& self.game_id == other.game_id
        &&& self.server_name == other.server_name
        &&& self.state == other.state
        &&& self.tick == other.tick
        &&& self.next_player_id == other.next_player_id
        &&& self.flag == other.flag
        &&& self.winner_id == other.winner_id
        &&& self.pending_inputs == other.pending_inputs
        &&& self.pending_interacts == other.pending_interacts
    }

    /// Every field but the players and the flag is the same in both.
    pub open spec fn same_outside_players_but_flag(&self, other: &GameSession) -> bool {
        &&& self.game_id == other.game_id
        &&& self.server_name == other.server_name
        &&& self.state == other.state
        &&& self.tick == other.tick
        &&& self.next_player_id == other.next_player_id
        &&& self.winner_id == other.winner_id
        &&& self.pending_inputs == other.pending_inputs
        &&& self.pending_interacts == other.pending_interacts
    }

    pub open spec fn flag_ok(&self) -> bool {
        flag_consistent(self.players@, self.flag)
    }
}

// ================================================================= lemmas

/// With increasing ids, the position of an id is the one that holds it.
proof fn lemma_index_of_unique(s: Seq<Player>, i: int)
    requires
        ids_increasing(s),
        0 <= i < s.len(),
    ensures
        has_player(s, s[i].player_id),
        index_of(s, s[i].player_id) == i,
{
    let id = s[i].player_id;
    assert(has_player(s, id));
    let j = index_of(s, id);
    if j < i {
        assert(s[j].player_id < s[i].player_id);
    } else if j > i {
        assert(s[i].player_id < s[j].player_id);
    }
}

/// In a list with increasing ids, the map entry of each listed id is the
/// listed player.
proof fn lemma_by_id_entry(s: Seq<Player>, j: int)
    requires
        ids_increasing(s),
        0 <= j < s.len(),
    ensures
        players_by_id(s).dom().contains(s[j].player_id),
        players_by_id(s)[s[j].player_id] == s[j],
{
    lemma_index_of_unique(s, j);
}

proof fn lemma_by_id_push(s: Seq<Player>, p: Player)
    requires
        ids_increasing(s.push(p)),
    ensures
        players_by_id(s.push(p)) == players_by_id(s).insert(p.player_id, p),
{
    let t = s.push(p);
    assert(ids_increasing(s)) by {
        assert forall|i: int, j: int| 0 <= i < j < s.len() implies s[i].player_id
            < s[j].player_id by {
            assert(t[i] == s[i] && t[j] == s[j]);
        }
    }
    assert forall|id: u16| #![auto] players_by_id(t).dom().contains(id) == players_by_id(s).insert(
        p.player_id,
        p,
    ).dom().contains(id) by {
        if has_player(t, id) {
            let j = choose|j: int| 0 <= j < t.len() && t[j].player_id == id;
            if j < s.len() {
                assert(s[j] == t[j]);
            }
        }
        if has_player(s, id) {
            let j = choose|j: int| 0 <= j < s.len() && s[j].player_id == id;
            assert(t[j] == s[j]);
        }
        assert(t[s.len() as int] == p);
    }
    assert forall|id: u16| #[trigger]
        players_by_id(t).dom().contains(id) implies players_by_id(t)[id] == players_by_id(
        s,
    ).insert(p.player_id, p)[id] by {
        let j = choose|j: int| 0 <= j < t.len() && t[j].player_id == id;
        lemma_by_id_entry(t, j);
        if j < s.len() {
            assert(t[j] == s[j]);
            lemma_by_id_entry(s, j);
            assert(s[j].player_id < p.player_id);
        }
    }
    assert(players_by_id(t) =~= players_by_id(s).insert(p.player_id, p));
}

proof fn lemma_by_id_update(s: Seq<Player>, k: int, p: Player)
    requires
        ids_increasing(s),
        0 <= k < s.len(),
        s[k].player_id == p.player_id,
    ensures
        ids_increasing(s.update(k, p)),
        players_by_id(s.update(k, p)) == players_by_id(s).insert(p.player_id, p),
{
    let t = s.update(k, p);
    assert(ids_increasing(t)) by {
        assert forall|i: int, j: int| 0 <= i < j < t.len() implies t[i].player_id
            < t[j].player_id by {
            assert(s[i].player_id < s[j].player_id);
        }
    }
    assert forall|id: u16| #![auto] players_by_id(t).dom().contains(id) == players_by_id(s).insert(
        p.player_id,
        p,
    ).dom().contains(id) by {
        if has_player(t, id) {
            let j = choose|j: int| 0 <= j < t.len() && t[j].player_id == id;
            assert(s[j].player_id == t[j].player_id);
        }
        if has_player(s, id) {
            let j = choose|j: int| 0 <= j < s.len() && s[j].player_id == id;
            assert(t[j].player_id == s[j].player_id);
        }
    }
    assert forall|id: u16| #[trigger]
        players_by_id(t).dom().contains(id) implies players_by_id(t)[id] == players_by_id(
        s,
    ).insert(p.player_id, p)[id] by {
        let j = choose|j: int| 0 <= j < t.len() && t[j].player_id == id;
        lemma_by_id_entry(t, j);
        if j != k {
            lemma_by_id_entry(s, j);
        }
    }
    assert(players_by_id(t) =~= players_by_id(s).insert(p.player_id, p));
}

proof fn lemma_by_id_remove(s: Seq<Player>, k: int)
    requires
        ids_increasing(s),
        0 <= k < s.len(),
    ensures
        ids_increasing(s.remove(k)),
        players_by_id(s.remove(k)) == players_by_id(s).remove(s[k].player_id),
{
    let t = s.remove(k);
    let id0 = s[k].player_id;
    assert(ids_increasing(t)) by {
        assert forall|i: int, j: int| 0 <= i < j < t.len() implies t[i].player_id
            < t[j].player_id by {
            let si = if i < k { i } else { i + 1 };
            let sj = if j < k { j } else { j + 1 };
            assert(t[i] == s[si] && t[j] == s[sj]);
        }
    }
    assert forall|id: u16| #![auto] players_by_id(t).dom().contains(id) == players_by_id(s).remove(
        id0,
    ).dom().contains(id) by {
        if has_player(t, id) {
            let j = choose|j: int| 0 <= j < t.len() && t[j].player_id == id;
            let sj = if j < k { j } else { j + 1 };
            assert(t[j] == s[sj]);
            assert(sj != k);
            if sj < k {
                assert(s[sj].player_id < s[k].player_id);
            } else {
                assert(s[k].player_id < s[sj].player_id);
            }
        }
        if has_player(s, id) && id != id0 {
            let j = choose|j: int| 0 <= j < s.len() && s[j].player_id == id;
            assert(j != k);
            let tj = if j < k { j } else { j - 1 };
            assert(t[tj] == s[j]);
        }
    }
    assert forall|id: u16| #[trigger]
        players_by_id(t).dom().contains(id) implies players_by_id(t)[id] == players_by_id(
        s,
    ).remove(id0)[id] by {
        let j = choose|j: int| 0 <= j < t.len() && t[j].player_id == id;
        lemma_by_id_entry(t, j);
        let sj = if j < k { j } else { j + 1 };
        assert(t[j] == s[sj]);
        lemma_by_id_entry(s, sj);
    }
    assert(players_by_id(t) =~= players_by_id(s).remove(id0));
}

/// In a list with distinct keys, the map entry of each listed key is the
/// listed direction.
proof fn lemma_inputs_entry(s: Seq<(u16, Direction)>, j: int)
    requires
        keys_distinct(s),
        0 <= j < s.len(),
    ensures
        inputs_by_id(s).dom().contains(s[j].0),
        inputs_by_id(s)[s[j].0] == s[j].1,
{
    let k = s[j].0;
    assert(exists|i: int| 0 <= i < s.len() && s[i].0 == k);
    let c = choose|i: int| 0 <= i < s.len() && s[i].0 == k;
    if c != j {
        if c < j {
            assert(s[c].0 != s[j].0);
        } else {
            assert(s[j].0 != s[c].0);
        }
    }
}

// ================================================================= trusted

/// Calls `rand::Rng::gen_range(1000..=9999)` on `rand::thread_rng()`.
/// Claimed: the number drawn lies between 1000 and 9999 inclusive; which one
/// it is is left open.
#[verifier::external_body]
fn random_game_id() -> (r: u16)
    ensures
        1000 <= r <= 9999,
{
    rand::Rng::gen_range(&mut rand::thread_rng(), 1000..=9999u16)
}

// ================================================================= operations

fn find_player(players: &Vec<Player>, player_id: u16) -> (r: Option<usize>)
    requires
        ids_increasing(players@),
    ensures
        match r {
            Some(i) => i < players@.len() && players@[i as int].player_id == player_id && index_of(
                players@,
                player_id,
            ) == i,
            None => !has_player(players@, player_id),
        },
{
    let mut i: usize = 0;
    while i < players.len()
        invariant
            i <= players@.len(),
            ids_increasing(players@),
            forall|j: int| 0 <= j < i ==> players@[j].player_id != player_id,
        decreases players.len() - i,
    {
        if players[i].player_id == player_id {
            proof {
                lemma_index_of_unique(players@, i as int);
            }
            return Some(i);
        }
        i = i + 1;
    }
    None
}

impl GameSession {
    /// A fresh lobby with the given game id: waiting, no players, the flag
    /// at the centre.
    pub fn with_game_id(game_id: u16, server_name: String) -> (r: GameSession)
        ensures
            r.wf(),
            r.flag_ok(),
            r.game_id == game_id,
            r.server_name@ == server_name@,
            r.state == GamePhase::Waiting,
            r.tick == 0,
            r.players@.len() == 0,
            r.next_player_id == 1,
            r.flag == flag_at_rest(),
            r.winner_id.is_none(),
            r.pending_inputs@.len() == 0,
            r.pending_interacts@.len() == 0,
    {
        GameSession {
            game_id,
            server_name,
            state: GamePhase::Waiting,
            tick: 0,
            players: Vec::new(),
            next_player_id: 1,
            flag: Flag { status: FlagStatus::Available, carrier_id: 0, x: ORIGIN, y: ORIGIN },
            winner_id: None,
            pending_inputs: Vec::new(),
            pending_interacts: Vec::new(),
        }
    }

    /// A fresh lobby whose game id is drawn at random between 1000 and 9999.
    pub fn new(server_name: String) -> (r: GameSession)
        ensures
            r.wf(),
            r.flag_ok(),
            1000 <= r.game_id <= 9999,
            r.server_name@ == server_name@,
            r.state == GamePhase::Waiting,
            r.tick == 0,
            r.players@.len() == 0,
            r.next_player_id == 1,
            r.flag == flag_at_rest(),
            r.winner_id.is_none(),
            r.pending_inputs@.len() == 0,
            r.pending_interacts@.len() == 0,
    {
        let game_id = random_game_id();
        GameSession::with_game_id(game_id, server_name)
    }

    /// The lobby entries of all players, in id order.
    pub fn lobby_players(&self) -> (r: Vec<LobbyPlayer>)
        ensures
            lobby_players_view(r@) == self.players@.map_values(|p: Player| lobby_entry(p)),
    {
        let mut out: Vec<LobbyPlayer> = Vec::new();
        let mut i: usize = 0;
        while i < self.players.len()
            invariant
                i <= self.players@.len(),
                lobby_players_view(out@) == self.players@.take(i as int).map_values(
                    |p: Player| lobby_entry(p),
                ),
            decreases self.players.len() - i,
        {
            let ghost before = out@;
            let entry = LobbyPlayer {
                player_id: self.players[i].player_id,
                name: self.players[i].name.clone(),
            };
            out.push(entry);
            proof {
                assert(lobby_players_view(out@) =~= lobby_players_view(before).push(entry@));
                assert(self.players@.take(i + 1) =~= self.players@.take(i as int).push(
                    self.players@[i as int],
                ));
                assert(self.players@.take(i + 1).map_values(|p: Player| lobby_entry(p))
                    =~= self.players@.take(i as int).map_values(|p: Player| lobby_entry(p)).push(
                    lobby_entry(self.players@[i as int]),
                ));
            }
            i = i + 1;
        }
        assert(self.players@.take(self.players@.len() as int) =~= self.players@);
        out
    }

    /// Adds a player under the next id and hands that id out; the next id
    /// grows by one, stopping at 65535 (where a player already under 65535
    /// is replaced).
    pub fn add_player(&mut self, name: String) -> (r: u16)
        requires
            old(self).wf(),
        ensures
            final(self).wf(),
            r == old(self).next_player_id,
            final(self).next_player_id == if old(self).next_player_id == u16::MAX {
                u16::MAX
            } else {
                (old(self).next_player_id + 1) as u16
            },
            players_by_id(final(self).players@) == players_by_id(old(self).players@).insert(
                r,
                new_player(r, name),
            ),
            !has_player(old(self).players@, r) ==> final(self).players@ == old(self).players@.push(
                new_player(r, name),
            ),
            has_player(old(self).players@, r) ==> final(self).players@ == old(self).players@.update(
                old(self).players@.len() - 1,
                new_player(r, name),
            ),
            old(self).next_player_id < u16::MAX ==> !has_player(old(self).players@, r),
            old(self).flag_ok() && !has_player(old(self).players@, r) ==> final(self).flag_ok(),
            final(self).game_id == old(self).game_id,
            final(self).server_name == old(self).server_name,
            final(self).state == old(self).state,
            final(self).tick == old(self).tick,
            final(self).flag == old(self).flag,
            final(self).winner_id == old(self).winner_id,
            final(self).pending_inputs == old(self).pending_inputs,
            final(self).pending_interacts == old(self).pending_interacts,
    {
        let player_id = self.next_player_id;
        self.next_player_id = self.next_player_id.saturating_add(1);
        let player = Player {
            player_id,
            name,
            x: ORIGIN,
            y: ORIGIN,
            direction: Direction::Idle,
            has_flag: false,
        };
        let ghost old_players = self.players@;
        let ghost p = player;
        let n = self.players.len();
        if n > 0 && self.players[n - 1].player_id == player_id {
            self.players[n - 1] = player;
            proof {
                assert(has_player(old_players, player_id)) by {
                    assert(old_players[n - 1].player_id == player_id);
                }
                lemma_by_id_update(old_players, n - 1, p);
                assert(self.players@ == old_players.update(n - 1, p));
            }
        } else {
            self.players.push(player);
            proof {
                assert(ids_increasing(old_players.push(p))) by {
                    let t = old_players.push(p);
                    assert forall|i: int, j: int| 0 <= i < j < t.len() implies t[i].player_id
                        < t[j].player_id by {
                        if j == n {
                            assert(t[i] == old_players[i]);
                            if old_players[i].player_id == player_id {
                                assert(old_players[n - 1].player_id >= old_players[i].player_id);
                            }
                        } else {
                            assert(t[i] == old_players[i] && t[j] == old_players[j]);
                        }
                    }
                }
                lemma_by_id_push(old_players, p);
                assert(self.players@ == old_players.push(p));
            }
        }
        proof {
            if player_id < u16::MAX {
                assert forall|i: int| 0 <= i < old_players.len() implies old_players[i].player_id
                    != player_id by {}
            }
            assert forall|i: int| 0 <= i < self.players@.len() implies 1
                <= #[trigger] self.players@[i].player_id && (self.players@[i].player_id
                < self.next_player_id || self.next_player_id == u16::MAX) by {
                if self.players@[i].player_id != player_id {
                    lemma_by_id_entry(self.players@, i);
                    let id = self.players@[i].player_id;
                    assert(players_by_id(old_players).dom().contains(id));
                    let j = choose|j: int| 0 <= j < old_players.len() && old_players[j].player_id == id;
                }
            }
            if flag_consistent(old_players, self.flag) && !has_player(old_players, player_id) {
                assert forall|i: int| 0 <= i < self.players@.len() implies (
                    #[trigger] self.players@[i].has_flag <==> ((self.flag.status
                    == FlagStatus::Carried || self.flag.status == FlagStatus::Outside)
                    && self.flag.carrier_id == self.players@[i].player_id)) by {
                    if i < old_players.len() {
                        assert(self.players@[i] == old_players[i]);
                        assert(old_players[i].has_flag == ((self.flag.status
                            == FlagStatus::Carried || self.flag.status == FlagStatus::Outside)
                            && self.flag.carrier_id == old_players[i].player_id));
                    } else {
                        assert(self.players@[i] == p);
                    }
                }
                if self.flag.status == FlagStatus::Carried || self.flag.status
                    == FlagStatus::Outside {
                    let j = choose|j: int|
                        0 <= j < old_players.len() && old_players[j].player_id
                            == self.flag.carrier_id;
                    assert(self.players@[j] == old_players[j]);
                }
            }
        }
        player_id
    }

    /// Removes a player, with any input or interaction they had queued. If
    /// they held the flag, it drops where they stood. Gives back the removed
    /// player, if there was one.
    pub fn remove_player(&mut self, player_id: u16) -> (r: Option<Player>)
        requires
            old(self).wf(),
        ensures
            final(self).wf(),
            match r {
                Some(p) => has_player(old(self).players@, player_id) && p == old(
                    self,
                ).players@[index_of(old(self).players@, player_id)] && final(self).players@ == old(
                    self,
                ).players@.remove(index_of(old(self).players@, player_id)),
                None => !has_player(old(self).players@, player_id) && final(self).players@ == old(
                    self,
                ).players@,
            },
            players_by_id(final(self).players@) == players_by_id(old(self).players@).remove(
                player_id,
            ),
            inputs_by_id(final(self).pending_inputs@) == inputs_by_id(
                old(self).pending_inputs@,
            ).remove(player_id),
            final(self).pending_interacts@.to_set() == old(self).pending_interacts@.to_set().remove(
                player_id,
            ),
            final(self).flag == (match r {
                Some(p) => if p.has_flag {
                    Flag { status: FlagStatus::Dropped, carrier_id: 0, x: p.x, y: p.y }
                } else {
                    old(self).flag
                },
                None => old(self).flag,
            }),
            old(self).flag_ok() ==> final(self).flag_ok(),
            final(self).game_id == old(self).game_id,
            final(self).server_name == old(self).server_name,
            final(self).state == old(self).state,
            final(self).tick == old(self).tick,
            final(self).next_player_id == old(self).next_player_id,
            final(self).winner_id == old(self).winner_id,
    {
        self.remove_pending_input(player_id);
        self.remove_pending_interact(player_id);
        let ghost mid = *self;
        match find_player(&self.players, player_id) {
            Some(i) => {
                let player = self.players.remove(i);
                proof {
                    lemma_by_id_remove(mid.players@, i as int);
                }
                if player.has_flag {
                    self.flag = Flag {
                        status: FlagStatus::Dropped,
                        carrier_id: 0,
                        x: player.x,
                        y: player.y,
                    };
                }
                proof {
                    let t = self.players@;
                    assert forall|j: int| 0 <= j < t.len() implies 1
                        <= #[trigger] t[j].player_id && (t[j].player_id < self.next_player_id
                        || self.next_player_id == u16::MAX) by {
                        let sj = if j < i { j } else { j + 1 };
                        assert(t[j] == mid.players@[sj]);
                    }
                    if flag_consistent(mid.players@, mid.flag) {
                        assert forall|j: int| 0 <= j < t.len() implies (#[trigger] t[j].has_flag
                            <==> ((self.flag.status == FlagStatus::Carried || self.flag.status
                            == FlagStatus::Outside) && self.flag.carrier_id == t[j].player_id)) by {
                            let sj = if j < i { j } else { j + 1 };
                            assert(t[j] == mid.players@[sj]);
                            if sj < i {
                                assert(mid.players@[sj].player_id < mid.players@[i as int].player_id);
                            } else {
                                assert(mid.players@[i as int].player_id < mid.players@[sj].player_id);
                            }
                        }
                    }
                    if flag_consistent(mid.players@, mid.flag) && (self.flag.status
                        == FlagStatus::Carried || self.flag.status == FlagStatus::Outside) {
                        let c = choose|c: int|
                            0 <= c < mid.players@.len() && mid.players@[c].player_id
                                == mid.flag.carrier_id;
                        assert(mid.players@[c].has_flag);
                        assert(c != i);
                        let tc = if c < i { c } else { c - 1 };
                        assert(t[tc] == mid.players@[c]);
                    }
                }
                Some(player)
            },
            None => {
                proof {
                    assert(players_by_id(self.players@) =~= players_by_id(self.players@).remove(
                        player_id,
                    ));
                }
                None
            },
        }
    }

    fn remove_pending_input(&mut self, player_id: u16)
        requires
            old(self).wf(),
        ensures
            final(self).wf(),
            inputs_by_id(final(self).pending_inputs@) == inputs_by_id(
                old(self).pending_inputs@,
            ).remove(player_id),
            final(self).players == old(self).players,
            final(self).pending_interacts == old(self).pending_interacts,
            final(self).flag == old(self).flag,
            final(self).game_id == old(self).game_id,
            final(self).server_name == old(self).server_name,
            final(self).state == old(self).state,
            final(self).tick == old(self).tick,
            final(self).next_player_id == old(self).next_player_id,
            final(self).winner_id == old(self).winner_id,
    {
        let ghost s = self.pending_inputs@;
        let mut i: usize = 0;
        while i < self.pending_inputs.len()
            invariant
                i <= self.pending_inputs@.len(),
                *self == *old(self),
                old(self).wf(),
                self.pending_inputs@ == s,
                forall|j: int| 0 <= j < i ==> s[j].0 != player_id,
            decreases self.pending_inputs.len() - i,
        {
            if self.pending_inputs[i].0 == player_id {
                self.pending_inputs.remove(i);
                proof {
                    let t = self.pending_inputs@;
                    assert(keys_distinct(t)) by {
                        assert forall|a: int, b: int| 0 <= a < b < t.len() implies t[a].0
                            != t[b].0 by {
                            let sa = if a < i { a } else { a + 1 };
                            let sb = if b < i { b } else { b + 1 };
                            assert(t[a] == s[sa] && t[b] == s[sb]);
                        }
                    }
                    assert forall|k: u16| #![auto] inputs_by_id(t).dom().contains(k)
                        == inputs_by_id(s).remove(player_id).dom().contains(k) by {
                        if inputs_by_id(t).dom().contains(k) {
                            let a = choose|a: int| 0 <= a < t.len() && t[a].0 == k;
                            let sa = if a < i { a } else { a + 1 };
                            assert(t[a] == s[sa]);
                            assert(sa != i);
                            if sa < i {
                                assert(s[sa].0 != s[i as int].0);
                            } else {
                                assert(s[i as int].0 != s[sa].0);
                            }
                        }
                        if inputs_by_id(s).dom().contains(k) && k != player_id {
                            let a = choose|a: int| 0 <= a < s.len() && s[a].0 == k;
                            let ta = if a < i { a } else { a - 1 };
                            assert(t[ta] == s[a]);
                        }
                    }
                    assert forall|k: u16| #[trigger]
                        inputs_by_id(t).dom().contains(k) implies inputs_by_id(t)[k]
                        == inputs_by_id(s).remove(player_id)[k] by {
                        let a = choose|a: int| 0 <= a < t.len() && t[a].0 == k;
                        lemma_inputs_entry(t, a);
                        let sa = if a < i { a } else { a + 1 };
                        assert(t[a] == s[sa]);
                        lemma_inputs_entry(s, sa);
                    }
                    assert(inputs_by_id(t) =~= inputs_by_id(s).remove(player_id));
                }
                return;
            }
            i = i + 1;
        }
        assert(inputs_by_id(s) =~= inputs_by_id(s).remove(player_id));
    }

    fn remove_pending_interact(&mut self, player_id: u16)
        requires
            old(self).wf(),
        ensures
            final(self).wf(),
            final(self).pending_interacts@.to_set() == old(self).pending_interacts@.to_set().remove(
                player_id,
            ),
            final(self).players == old(self).players,
            final(self).pending_inputs == old(self).pending_inputs,
            final(self).flag == old(self).flag,
            final(self).game_id == old(self).game_id,
            final(self).server_name == old(self).server_name,
            final(self).state == old(self).state,
            final(self).tick == old(self).tick,
            final(self).next_player_id == old(self).next_player_id,
            final(self).winner_id == old(self).winner_id,
    {
        let ghost s = self.pending_interacts@;
        let mut i: usize = 0;
        while i < self.pending_interacts.len()
            invariant
                i <= self.pending_interacts@.len(),
                *self == *old(self),
                old(self).wf(),
                self.pending_interacts@ == s,
                forall|j: int| 0 <= j < i ==> s[j] != player_id,
            decreases self.pending_interacts.len() - i,
        {
            if self.pending_interacts[i] == player_id {
                self.pending_interacts.remove(i);
                proof {
                    let t = self.pending_interacts@;
                    assert forall|a: int, b: int| 0 <= a < b < t.len() implies t[a] < t[b] by {
                        let sa = if a < i { a } else { a + 1 };
                        let sb = if b < i { b } else { b + 1 };
                        assert(t[a] == s[sa] && t[b] == s[sb]);
                    }
                    assert forall|k: u16| #![auto] t.to_set().contains(k) == s.to_set().remove(
                        player_id,
                    ).contains(k) by {
                        if t.contains(k) {
                            let a = choose|a: int| 0 <= a < t.len() && t[a] == k;
                            let sa = if a < i { a } else { a + 1 };
                            assert(t[a] == s[sa]);
                            if sa < i {
                                assert(s[sa] < s[i as int]);
                            } else {
                                assert(s[i as int] < s[sa]);
                            }
                        }
                        if s.contains(k) && k != player_id {
                            let a = choose|a: int| 0 <= a < s.len() && s[a] == k;
                            let ta = if a < i { a } else { a - 1 };
                            assert(t[ta] == s[a]);
                        }
                    }
                    assert(t.to_set() =~= s.to_set().remove(player_id));
                }
                return;
            }
            i = i + 1;
        }
        assert(s.to_set() =~= s.to_set().remove(player_id));
    }

    /// Queues a direction for the next tick; a later one for the same player
    /// replaces an earlier one.
    pub fn queue_input(&mut self, player_id: u16, direction: Direction)
        requires
            old(self).wf(),
        ensures
            final(self).wf(),
            inputs_by_id(final(self).pending_inputs@) == inputs_by_id(
                old(self).pending_inputs@,
            ).insert(player_id, direction),
            !inputs_by_id(old(self).pending_inputs@).dom().contains(player_id)
                ==> final(self).pending_inputs@ == old(self).pending_inputs@.push(
                (player_id, direction),
            ),
            final(self).pending_inputs@.len() <= old(self).pending_inputs@.len() + 1,
            final(self).players == old(self).players,
            final(self).pending_interacts == old(self).pending_interacts,
            final(self).flag == old(self).flag,
            final(self).game_id == old(self).game_id,
            final(self).server_name == old(self).server_name,
            final(self).state == old(self).state,
            final(self).tick == old(self).tick,
            final(self).next_player_id == old(self).next_player_id,
            final(self).winner_id == old(self).winner_id,
    {
        let ghost s = self.pending_inputs@;
        let mut i: usize = 0;
        while i < self.pending_inputs.len()
            invariant
                i <= self.pending_inputs@.len(),
                *self == *old(self),
                old(self).wf(),
                self.pending_inputs@ == s,
                forall|j: int| 0 <= j < i ==> s[j].0 != player_id,
            decreases self.pending_inputs.len() - i,
        {
            if self.pending_inputs[i].0 == player_id {
                self.pending_inputs[i] = (player_id, direction);
                proof {
                    let t = self.pending_inputs@;
                    assert(t == s.update(i as int, (player_id, direction)));
                    assert(keys_distinct(t)) by {
                        assert forall|a: int, b: int| 0 <= a < b < t.len() implies t[a].0
                            != t[b].0 by {
                            assert(s[a].0 != s[b].0);
                        }
                    }
                    assert forall|k: u16| #![auto] inputs_by_id(t).dom().contains(k)
                        == inputs_by_id(s).insert(player_id, direction).dom().contains(k) by {
                        if inputs_by_id(t).dom().contains(k) {
                            let a = choose|a: int| 0 <= a < t.len() && t[a].0 == k;
                            assert(s[a].0 == t[a].0);
                        }
                        if inputs_by_id(s).dom().contains(k) {
                            let a = choose|a: int| 0 <= a < s.len() && s[a].0 == k;
                            assert(t[a].0 == s[a].0);
                        }
                        assert(t[i as int].0 == player_id);
                    }
                    assert forall|k: u16| #[trigger]
                        inputs_by_id(t).dom().contains(k) implies inputs_by_id(t)[k]
                        == inputs_by_id(s).insert(player_id, direction)[k] by {
                        let a = choose|a: int| 0 <= a < t.len() && t[a].0 == k;
                        lemma_inputs_entry(t, a);
                        if a != i {
                            lemma_inputs_entry(s, a);
                        }
                    }
                    assert(inputs_by_id(t) =~= inputs_by_id(s).insert(player_id, direction));
                }
                return;
            }
            i = i + 1;
        }
        self.pending_inputs.push((player_id, direction));
        proof {
            let t = self.pending_inputs@;
            assert(keys_distinct(t)) by {
                assert forall|a: int, b: int| 0 <= a < b < t.len() implies t[a].0 != t[b].0 by {
                    if b < s.len() {
                        assert(t[a] == s[a] && t[b] == s[b]);
                    } else {
                        assert(t[a] == s[a]);
                    }
                }
            }
            assert forall|k: u16| #![auto] inputs_by_id(t).dom().contains(k) == inputs_by_id(
                s,
            ).insert(player_id, direction).dom().contains(k) by {
                if inputs_by_id(t).dom().contains(k) {
                    let a = choose|a: int| 0 <= a < t.len() && t[a].0 == k;
                    if a < s.len() {
                        assert(s[a] == t[a]);
                    }
                }
                if inputs_by_id(s).dom().contains(k) {
                    let a = choose|a: int| 0 <= a < s.len() && s[a].0 == k;
                    assert(t[a] == s[a]);
                }
                assert(t[s.len() as int].0 == player_id);
            }
            assert forall|k: u16| #[trigger]
                inputs_by_id(t).dom().contains(k) implies inputs_by_id(t)[k] == inputs_by_id(
                s,
            ).insert(player_id, direction)[k] by {
                let a = choose|a: int| 0 <= a < t.len() && t[a].0 == k;
                lemma_inputs_entry(t, a);
                if a < s.len() {
                    assert(t[a] == s[a]);
                    lemma_inputs_entry(s, a);
                }
            }
            assert(inputs_by_id(t) =~= inputs_by_id(s).insert(player_id, direction));
        }
    }

    /// Queues an interaction for the next tick (once per player).
    pub fn queue_interact(&mut self, player_id: u16)
        requires
            old(self).wf(),
        ensures
            final(self).wf(),
            final(self).pending_interacts@.to_set() == old(self).pending_interacts@.to_set().insert(
                player_id,
            ),
            old(self).pending_interacts@.contains(player_id) ==> final(self).pending_interacts
                == old(self).pending_interacts,
            !old(self).pending_interacts@.contains(player_id) ==> exists|k: int|
                0 <= k <= old(self).pending_interacts@.len() && final(self).pending_interacts@ == old(
                    self,
                ).pending_interacts@.insert(k, player_id),
            final(self).players == old(self).players,
            final(self).pending_inputs == old(self).pending_inputs,
            final(self).flag == old(self).flag,
            final(self).game_id == old(self).game_id,
            final(self).server_name == old(self).server_name,
            final(self).state == old(self).state,
            final(self).tick == old(self).tick,
            final(self).next_player_id == old(self).next_player_id,
            final(self).winner_id == old(self).winner_id,
    {
        let ghost s = self.pending_interacts@;
        let mut i: usize = 0;
        while i < self.pending_interacts.len() && self.pending_interacts[i] < player_id
            invariant
                i <= self.pending_interacts@.len(),
                *self == *old(self),
                old(self).wf(),
                self.pending_interacts@ == s,
                forall|j: int| 0 <= j < i ==> s[j] < player_id,
            decreases self.pending_interacts.len() - i,
        {
            i = i + 1;
        }
        if i < self.pending_interacts.len() && self.pending_interacts[i] == player_id {
            assert(s.to_set() =~= s.to_set().insert(player_id)) by {
                assert(s.contains(player_id)) by {
                    assert(s[i as int] == player_id);
                }
            }
            return;
        }
        self.pending_interacts.insert(i, player_id);
        proof {
            let t = self.pending_interacts@;
            assert(t == s.insert(i as int, player_id));
            assert forall|a: int, b: int| 0 <= a < b < t.len() implies t[a] < t[b] by {
                if b < i {
                    assert(t[a] == s[a] && t[b] == s[b]);
                } else if b == i {
                    assert(t[a] == s[a]);
                } else if a < i {
                    assert(t[a] == s[a] && t[b] == s[b - 1]);
                    assert(s[i as int] > player_id);
                    if b - 1 > i {
                        assert(s[i as int] < s[b - 1]);
                    }
                } else if a == i {
                    assert(t[b] == s[b - 1]);
                    assert(s[i as int] > player_id);
                    if b - 1 > i {
                        assert(s[i as int] < s[b - 1]);
                    }
                } else {
                    assert(t[a] == s[a - 1] && t[b] == s[b - 1]);
                }
            }
            assert forall|k: u16| #![auto] t.to_set().contains(k) == s.to_set().insert(
                player_id,
            ).contains(k) by {
                if t.contains(k) {
                    let a = choose|a: int| 0 <= a < t.len() && t[a] == k;
                    if a < i {
                        assert(t[a] == s[a]);
                    } else if a > i {
                        assert(t[a] == s[a - 1]);
                    }
                }
                if s.contains(k) {
                    let a = choose|a: int| 0 <= a < s.len() && s[a] == k;
                    if a < i {
                        assert(t[a] == s[a]);
                    } else {
                        assert(t[a + 1] == s[a]);
                    }
                }
                assert(t[i as int] == player_id);
            }
            assert(t.to_set() =~= s.to_set().insert(player_id));
        }
    }

    /// Starts the countdown: only from the waiting phase and with at least
    /// one player.
    pub fn start_countdown(&mut self) -> (r: bool)
        ensures
            r == (old(self).state == GamePhase::Waiting && old(self).players@.len() > 0),
            final(self).state == if r {
                GamePhase::Starting
            } else {
                old(self).state
            },
            final(self).players == old(self).players,
            final(self).pending_inputs == old(self).pending_inputs,
            final(self).pending_interacts == old(self).pending_interacts,
            final(self).flag == old(self).flag,
            final(self).game_id == old(self).game_id,
            final(self).server_name == old(self).server_name,
            final(self).tick == old(self).tick,
            final(self).next_player_id == old(self).next_player_id,
            final(self).winner_id == old(self).winner_id,
    {
        if self.state != GamePhase::Waiting || self.players.len() == 0 {
            return false;
        }
        self.state = GamePhase::Starting;
        true
    }

    /// Back to an empty lobby: waiting, tick 0, no winner, no players, no
    /// queued inputs or interactions, the flag at the centre. Ids keep
    /// counting from where they were.
    pub fn reset_to_waiting(&mut self)
        requires
            old(self).wf(),
        ensures
            final(self).wf(),
            final(self).flag_ok(),
            final(self).state == GamePhase::Waiting,
            final(self).tick == 0,
            final(self).winner_id.is_none(),
            final(self).players@.len() == 0,
            final(self).pending_inputs@.len() == 0,
            final(self).pending_interacts@.len() == 0,
            final(self).flag == flag_at_rest(),
            final(self).game_id == old(self).game_id,
            final(self).server_name == old(self).server_name,
            final(self).next_player_id == old(self).next_player_id,
    {
        self.state = GamePhase::Waiting;
        self.tick = 0;
        self.winner_id = None;
        self.players.clear();
        self.pending_inputs.clear();
        self.pending_interacts.clear();
        self.flag = Flag { status: FlagStatus::Available, carrier_id: 0, x: ORIGIN, y: ORIGIN };
    }

    /// Starts the game: running, tick 0, no winner, the flag at the centre,
    /// every player at their spawn point (given in player order), standing
    /// still and without the flag.
    pub fn begin_running(&mut self, spawns: &Vec<(u32, u32)>)
        requires
            old(self).wf(),
            spawns@.len() == old(self).players@.len(),
        ensures
            final(self).wf(),
            final(self).flag_ok(),
            final(self).state == GamePhase::Running,
            final(self).tick == 0,
            final(self).winner_id.is_none(),
            final(self).flag == flag_at_rest(),
            final(self).players@.len() == old(self).players@.len(),
            forall|i: int|
                0 <= i < final(self).players@.len() ==> #[trigger] final(self).players@[i]
                    == spawned(old(self).players@[i], spawns@[i]),
            final(self).pending_inputs == old(self).pending_inputs,
            final(self).pending_interacts == old(self).pending_interacts,
            final(self).game_id == old(self).game_id,
            final(self).server_name == old(self).server_name,
            final(self).next_player_id == old(self).next_player_id,
    {
        self.state = GamePhase::Running;
        self.tick = 0;
        self.winner_id = None;
        self.flag = Flag { status: FlagStatus::Available, carrier_id: 0, x: ORIGIN, y: ORIGIN };
        let ghost s = self.players@;
        let ghost base = *self;
        let mut i: usize = 0;
        while i < self.players.len()
            invariant
                i <= self.players@.len(),
                self.same_outside_players(&base),
                self.players@.len() == s.len(),
                spawns@.len() == s.len(),
                forall|j: int|
                    0 <= j < i ==> #[trigger] self.players@[j] == spawned(s[j], spawns@[j]),
                forall|j: int| i <= j < s.len() ==> #[trigger] self.players@[j] == s[j],
            decreases self.players.len() - i,
        {
            let (x, y) = spawns[i];
            self.players[i].x = x;
            self.players[i].y = y;
            self.players[i].direction = Direction::Idle;
            self.players[i].has_flag = false;
            i = i + 1;
        }
        proof {
            assert forall|j: int| 0 <= j < self.players@.len() implies 1
                <= #[trigger] self.players@[j].player_id && (self.players@[j].player_id
                < self.next_player_id || self.next_player_id == u16::MAX) by {
                assert(self.players@[j].player_id == s[j].player_id);
            }
            assert forall|a: int, b: int| 0 <= a < b < self.players@.len() implies self.players@[
                a
            ].player_id < self.players@[b].player_id by {
                assert(self.players@[a].player_id == s[a].player_id);
                assert(self.players@[b].player_id == s[b].player_id);
            }
        }
    }
}

// ================================================================= ticks

/// A player after the inputs queued for them (if any) are applied.
pub open spec fn with_input(p: Player, inputs: Map<u16, Direction>) -> Player {
    if inputs.dom().contains(p.player_id) {
        Player { direction: inputs[p.player_id], ..p }
    } else {
        p
    }
}

/// A player moved to a new position.
pub open spec fn moved(p: Player, to: (u32, u32)) -> Player {
    Player { x: to.0, y: to.1, ..p }
}

/// Whether the player `pid`, interacting, takes the flag from the state
/// (`players`, `flag`) as it stood at the start of the interactions:
/// they are a player without the flag, in reach of their target, and the
/// flag is either lying free with nobody carrying it, or carried by another
/// player who is there.
pub open spec fn can_take_flag(
    players: Seq<Player>,
    flag: Flag,
    reach: Seq<bool>,
    pid: u16,
) -> bool {
    &&& has_player(players, pid)
    &&& !players[index_of(players, pid)].has_flag
    &&& reach[index_of(players, pid)]
    &&& match flag.status {
        FlagStatus::Available | FlagStatus::Dropped => flag.carrier_id == 0,
        FlagStatus::Carried => flag.carrier_id != 0 && flag.carrier_id != pid && has_player(
            players,
            flag.carrier_id,
        ),
        FlagStatus::Outside => false,
    }
}

/// The first interacting player, in the order given, who takes the flag.
pub open spec fn first_taker(
    pending: Seq<u16>,
    players: Seq<Player>,
    flag: Flag,
    reach: Seq<bool>,
) -> Option<u16>
    decreases pending.len(),
{
    if pending.len() == 0 {
        None
    } else {
        match first_taker(pending.drop_last(), players, flag, reach) {
            Some(w) => Some(w),
            None => if can_take_flag(players, flag, reach, pending.last()) {
                Some(pending.last())
            } else {
                None
            },
        }
    }
}

/// Every player holds the flag exactly when they are `pid`.
pub open spec fn give_flag_to(players: Seq<Player>, pid: u16) -> Seq<Player> {
    players.map_values(|p: Player| Player { has_flag: p.player_id == pid, ..p })
}

/// `from` lets go of the flag and `to` holds it; the others are unchanged.
pub open spec fn pass_flag(players: Seq<Player>, from: u16, to: u16) -> Seq<Player> {
    players.map_values(
        |p: Player|
            if p.player_id == from {
                Player { has_flag: false, ..p }
            } else if p.player_id == to {
                Player { has_flag: true, ..p }
            } else {
                p
            },
    )
}

/// The players once `w` took the flag: picked up if it was free, stolen
/// from its carrier otherwise.
pub open spec fn players_after_take(players: Seq<Player>, flag: Flag, w: u16) -> Seq<Player> {
    if flag.status == FlagStatus::Carried {
        pass_flag(players, flag.carrier_id, w)
    } else {
        give_flag_to(players, w)
    }
}

/// The flag once `w` took it: carried by `w`, where `w` stands.
pub open spec fn flag_taken_by(players: Seq<Player>, w: u16) -> Flag {
    Flag {
        status: FlagStatus::Carried,
        carrier_id: w,
        x: players[index_of(players, w)].x,
        y: players[index_of(players, w)].y,
    }
}

pub open spec fn take_event(flag: Flag, w: u16, tick: u32) -> TickEvent {
    if flag.status == FlagStatus::Carried {
        TickEvent::FlagStolen { tick, previous_carrier_id: flag.carrier_id, new_carrier_id: w }
    } else {
        TickEvent::FlagPickedUp { tick, player_id: w }
    }
}

/// What the interactions of a tick lead to: the players, the flag and the
/// events.
pub open spec fn interactions_outcome(g: GameSession, reach: Seq<bool>) -> (
    Seq<Player>,
    Flag,
    Seq<TickEvent>,
) {
    match first_taker(g.pending_interacts@, g.players@, g.flag, reach) {
        Some(w) => (
            players_after_take(g.players@, g.flag, w),
            flag_taken_by(g.players@, w),
            seq![take_event(g.flag, w, g.tick)],
        ),
        None => (g.players@, g.flag, seq![]),
    }
}

/// Whether the carrier of `flag` is a player standing outside the circle.
pub open spec fn carrier_escapes(players: Seq<Player>, flag: Flag, outside: Seq<bool>) -> bool {
    &&& flag.status == FlagStatus::Carried
    &&& has_player(players, flag.carrier_id)
    &&& outside[index_of(players, flag.carrier_id)]
}

/// The flag after the victory check: a carried flag sits where its carrier
/// stands, and is out of the game if the carrier is outside the circle.
pub open spec fn flag_after_check(players: Seq<Player>, flag: Flag, outside: Seq<bool>) -> Flag {
    if flag.status == FlagStatus::Carried && has_player(players, flag.carrier_id) {
        let k = index_of(players, flag.carrier_id);
        Flag {
            status: if outside[k] {
                FlagStatus::Outside
            } else {
                FlagStatus::Carried
            },
            x: players[k].x,
            y: players[k].y,
            ..flag
        }
    } else {
        flag
    }
}

/// Taking the flag changes who holds it and nothing else of any player.
proof fn lemma_take_keeps_players(s: Seq<Player>, f: Flag, w: u16)
    ensures
        players_after_take(s, f, w).len() == s.len(),
        forall|j: int|
            0 <= j < s.len() ==> #[trigger] players_after_take(s, f, w)[j] == (Player {
                has_flag: players_after_take(s, f, w)[j].has_flag,
                ..s[j]
            }),
{
}

/// The players after the interactions have the same ids, in the same
/// order.
proof fn lemma_interactions_keep_ids(g: GameSession, reach: Seq<bool>)
    requires
        g.wf(),
    ensures
        ({
            let (p, f, ev) = interactions_outcome(g, reach);
            &&& p.len() == g.players@.len()
            &&& forall|j: int|
                0 <= j < p.len() ==> #[trigger] p[j].player_id == g.players@[j].player_id
            &&& ids_increasing(p)
        }),
{
    let (p, f, ev) = interactions_outcome(g, reach);
    match first_taker(g.pending_interacts@, g.players@, g.flag, reach) {
        Some(w) => {
            lemma_take_keeps_players(g.players@, g.flag, w);
            assert forall|a: int, b: int| 0 <= a < b < p.len() implies p[a].player_id
                < p[b].player_id by {
                assert(p[a].player_id == g.players@[a].player_id);
                assert(p[b].player_id == g.players@[b].player_id);
            }
        },
        None => {},
    }
}

/// Interactions and the victory check keep the flag consistent.
proof fn lemma_interactions_keep_flag_ok(g: GameSession, reach: Seq<bool>, outside: Seq<bool>)
    requires
        g.wf(),
        reach.len() == g.players@.len(),
    ensures
        g.flag_ok() ==> ({
            let (p, f, ev) = interactions_outcome(g, reach);
            flag_consistent(p, flag_after_check(p, f, outside))
        }),
{
    if g.flag_ok() {
        let s = g.players@;
        let (p, f, ev) = interactions_outcome(g, reach);
        lemma_interactions_keep_ids(g, reach);
        match first_taker(g.pending_interacts@, s, g.flag, reach) {
            Some(w) => {
                lemma_first_taker_can_take(g.pending_interacts@, s, g.flag, reach);
                lemma_take_keeps_players(s, g.flag, w);
                let iw = index_of(s, w);
                assert(p[iw].player_id == w);
                assert(has_player(p, w));
                assert forall|j: int| 0 <= j < p.len() implies (#[trigger] p[j].has_flag
                    <==> p[j].player_id == w) by {
                    assert(p[j].player_id == s[j].player_id);
                    if g.flag.status == FlagStatus::Carried {
                        assert(s[j].has_flag <==> (g.flag.carrier_id == s[j].player_id));
                    }
                }
            },
            None => {},
        }
        let f2 = flag_after_check(p, f, outside);
        assert(flag_consistent(p, f2));
    }
}

/// The first taker, when there is one, can take the flag.
proof fn lemma_first_taker_can_take(
    pending: Seq<u16>,
    players: Seq<Player>,
    flag: Flag,
    reach: Seq<bool>,
)
    ensures
        first_taker(pending, players, flag, reach) matches Some(w) ==> can_take_flag(
            players,
            flag,
            reach,
            w,
        ),
    decreases pending.len(),
{
    if pending.len() > 0 {
        lemma_first_taker_can_take(pending.drop_last(), players, flag, reach);
    }
}

/// `after` is `before` once a tick has started: the counter grows by one,
/// every player takes the direction last queued for them and the queue
/// empties.
pub open spec fn tick_started(before: GameSession, after: GameSession) -> bool {
    &&& after.tick == before.tick + 1
    &&& after.players@.len() == before.players@.len()
    &&& forall|i: int|
        0 <= i < after.players@.len() ==> #[trigger] after.players@[i] == with_input(
            before.players@[i],
            inputs_by_id(before.pending_inputs@),
        )
    &&& after.pending_inputs@.len() == 0
    &&& after.pending_interacts == before.pending_interacts
    &&& after.flag == before.flag
    &&& after.game_id == before.game_id
    &&& after.server_name == before.server_name
    &&& after.state == before.state
    &&& after.next_player_id == before.next_player_id
    &&& after.winner_id == before.winner_id
}

/// `after` is `before` with every player at their new position (given in
/// player order); a carried flag moves with its carrier.
pub open spec fn players_moved(
    before: GameSession,
    after: GameSession,
    positions: Seq<(u32, u32)>,
) -> bool {
    &&& after.players@.len() == before.players@.len()
    &&& forall|i: int|
        0 <= i < after.players@.len() ==> #[trigger] after.players@[i] == moved(
            before.players@[i],
            positions[i],
        )
    &&& after.flag == if before.flag.status == FlagStatus::Carried && has_player(
        before.players@,
        before.flag.carrier_id,
    ) {
        Flag {
            x: positions[index_of(before.players@, before.flag.carrier_id)].0,
            y: positions[index_of(before.players@, before.flag.carrier_id)].1,
            ..before.flag
        }
    } else {
        before.flag
    }
    &&& after.pending_inputs == before.pending_inputs
    &&& after.pending_interacts == before.pending_interacts
    &&& after.game_id == before.game_id
    &&& after.server_name == before.server_name
    &&& after.state == before.state
    &&& after.tick == before.tick
    &&& after.next_player_id == before.next_player_id
    &&& after.winner_id == before.winner_id
}

/// `after` is `before` once the interactions are played out (see
/// `interactions_outcome`) and victory checked, with the events and the
/// game-over message they gave.
pub open spec fn interactions_resolved(
    before: GameSession,
    after: GameSession,
    reach: Seq<bool>,
    outside: Seq<bool>,
    events: Seq<TickEvent>,
    game_over: Option<ServerMessage>,
) -> bool {
    let (p, f, ev) = interactions_outcome(before, reach);
    let wins = carrier_escapes(p, f, outside);
    &&& after.players@ == p
    &&& events == ev
    &&& after.flag == flag_after_check(p, f, outside)
    &&& after.state == if wins {
        GamePhase::Finished
    } else {
        before.state
    }
    &&& after.winner_id == if wins {
        Some(f.carrier_id)
    } else {
        before.winner_id
    }
    &&& wins ==> (game_over matches Some(m) && m@ == (ServerMessageModel::GameOver {
        winner_id: f.carrier_id,
        winner_name: p[index_of(p, f.carrier_id)].name@,
        reason: GameOverReason::ExitedCircleWithFlag,
    }))
    &&& !wins ==> game_over is None
    &&& after.pending_interacts@.len() == 0
    &&& after.pending_inputs == before.pending_inputs
    &&& after.game_id == before.game_id
    &&& after.server_name == before.server_name
    &&& after.tick == before.tick
    &&& after.next_player_id == before.next_player_id
}

/// A tick's interactions produce at most one event: once the flag is
/// taken, nobody else takes it in the same tick.
pub proof fn lemma_at_most_one_event(g: GameSession, reach: Seq<bool>)
    ensures
        interactions_outcome(g, reach).2.len() <= 1,
{
}

proof fn lemma_first_taker_none(
    pending: Seq<u16>,
    players: Seq<Player>,
    flag: Flag,
    reach: Seq<bool>,
)
    requires
        forall|j: int| 0 <= j < pending.len() ==> !can_take_flag(players, flag, reach, #[trigger] pending[j]),
    ensures
        first_taker(pending, players, flag, reach) is None,
    decreases pending.len(),
{
    if pending.len() > 0 {
        let init = pending.drop_last();
        assert forall|j: int| 0 <= j < init.len() implies !can_take_flag(players, flag, reach, #[trigger] init[j]) by {
            assert(init[j] == pending[j]);
        }
        lemma_first_taker_none(init, players, flag, reach);
        assert(!can_take_flag(players, flag, reach, pending[pending.len() - 1]));
    }
}

proof fn lemma_first_taker_is_first(
    pending: Seq<u16>,
    players: Seq<Player>,
    flag: Flag,
    reach: Seq<bool>,
    k: int,
)
    requires
        0 <= k < pending.len(),
        can_take_flag(players, flag, reach, pending[k]),
        forall|j: int| 0 <= j < k ==> !can_take_flag(players, flag, reach, #[trigger] pending[j]),
    ensures
        first_taker(pending, players, flag, reach) == Some(pending[k]),
    decreases pending.len(),
{
    let init = pending.drop_last();
    if k == pending.len() - 1 {
        assert forall|j: int| 0 <= j < init.len() implies !can_take_flag(players, flag, reach, #[trigger] init[j]) by {
            assert(init[j] == pending[j]);
        }
        lemma_first_taker_none(init, players, flag, reach);
    } else {
        assert forall|j: int| 0 <= j < k implies !can_take_flag(players, flag, reach, #[trigger] init[j]) by {
            assert(init[j] == pending[j]);
        }
        assert(init[k] == pending[k]);
        lemma_first_taker_is_first(init, players, flag, reach, k);
    }
}

/// A flag lying free, whether never taken or dropped by a player who left,
/// goes to the first interacting player in the queue who is in the game,
/// does not hold the flag and is in reach of it: the tick gives exactly one
/// event, that player's pickup, and from then on that player alone holds
/// the flag, which is carried by them (or, if they already stand outside
/// the circle, has left it with them).
pub proof fn lemma_free_flag_goes_to_first_in_reach(
    before: GameSession,
    after: GameSession,
    reach: Seq<bool>,
    outside: Seq<bool>,
    events: Seq<TickEvent>,
    game_over: Option<ServerMessage>,
    k: int,
)
    requires
        before.wf(),
        reach.len() == before.players@.len(),
        before.flag.status == FlagStatus::Available || before.flag.status == FlagStatus::Dropped,
        before.flag.carrier_id == 0,
        0 <= k < before.pending_interacts@.len(),
        ({
            let id = before.pending_interacts@[k];
            &&& has_player(before.players@, id)
            &&& !before.players@[index_of(before.players@, id)].has_flag
            &&& reach[index_of(before.players@, id)]
        }),
        forall|j: int|
            0 <= j < k ==> {
                let id = #[trigger] before.pending_interacts@[j];
                !(has_player(before.players@, id) && !before.players@[index_of(
                    before.players@,
                    id,
                )].has_flag && reach[index_of(before.players@, id)])
            },
        interactions_resolved(before, after, reach, outside, events, game_over),
    ensures
        events == seq![
            TickEvent::FlagPickedUp { tick: before.tick, player_id: before.pending_interacts@[k] },
        ],
        after.flag.carrier_id == before.pending_interacts@[k],
        after.flag.status == FlagStatus::Carried || after.flag.status == FlagStatus::Outside,
        forall|i: int|
            0 <= i < after.players@.len() ==> (#[trigger] after.players@[i].has_flag
                <==> after.players@[i].player_id == before.pending_interacts@[k]),
{
    let pending = before.pending_interacts@;
    let w = pending[k];
    assert forall|j: int| 0 <= j < k implies !can_take_flag(
        before.players@,
        before.flag,
        reach,
        #[trigger] pending[j],
    ) by {}
    lemma_first_taker_is_first(pending, before.players@, before.flag, reach, k);
    lemma_index_of_unique(before.players@, index_of(before.players@, w));
    let p = give_flag_to(before.players@, w);
    assert(p.len() == before.players@.len());
    let iw = index_of(before.players@, w);
    assert(p[iw].player_id == w);
    assert forall|a: int, b: int| 0 <= a < b < p.len() implies p[a].player_id < p[b].player_id by {
        assert(p[a].player_id == before.players@[a].player_id);
        assert(p[b].player_id == before.players@[b].player_id);
    }
    lemma_index_of_unique(p, iw);
    assert forall|i: int| 0 <= i < after.players@.len() implies (#[trigger] after.players@[i].has_flag
        <==> after.players@[i].player_id == w) by {
        assert(after.players@[i] == p[i]);
    }
}

/// Over a whole tick (its start, the moves, the interactions and the
/// victory check) the game stays well formed, the flag stays consistent
/// with who holds it, and at most one pickup or theft happens, however many
/// players ask to interact.
pub proof fn lemma_tick_keeps_flag_consistent(
    g0: GameSession,
    g1: GameSession,
    g2: GameSession,
    g3: GameSession,
    positions: Seq<(u32, u32)>,
    reach: Seq<bool>,
    outside: Seq<bool>,
    events: Seq<TickEvent>,
    game_over: Option<ServerMessage>,
)
    requires
        g0.wf(),
        g0.flag_ok(),
        tick_started(g0, g1),
        positions.len() == g1.players@.len(),
        players_moved(g1, g2, positions),
        reach.len() == g2.players@.len(),
        interactions_resolved(g2, g3, reach, outside, events, game_over),
    ensures
        g3.wf(),
        g3.flag_ok(),
        events.len() <= 1,
{
    let s0 = g0.players@;
    let s1 = g1.players@;
    let s2 = g2.players@;
    assert forall|j: int| 0 <= j < s1.len() implies #[trigger] s1[j].player_id == s0[j].player_id
        && s1[j].has_flag == s0[j].has_flag by {
        assert(s1[j] == with_input(s0[j], inputs_by_id(g0.pending_inputs@)));
    }
    assert forall|j: int| 0 <= j < s2.len() implies #[trigger] s2[j].player_id == s0[j].player_id
        && s2[j].has_flag == s0[j].has_flag by {
        assert(s2[j] == moved(s1[j], positions[j]));
        assert(s1[j].player_id == s0[j].player_id);
    }
    assert(g2.wf()) by {
        assert forall|a: int, b: int| 0 <= a < b < s2.len() implies s2[a].player_id
            < s2[b].player_id by {
            assert(s2[a].player_id == s0[a].player_id);
            assert(s2[b].player_id == s0[b].player_id);
        }
        assert forall|i: int| 0 <= i < s2.len() implies 1 <= #[trigger] s2[i].player_id && (
        s2[i].player_id < g2.next_player_id || g2.next_player_id == u16::MAX) by {
            assert(s2[i].player_id == s0[i].player_id);
        }
    }
    assert(has_player(s0, g0.flag.carrier_id) ==> has_player(s2, g0.flag.carrier_id)) by {
        if has_player(s0, g0.flag.carrier_id) {
            let c = choose|c: int| 0 <= c < s0.len() && s0[c].player_id == g0.flag.carrier_id;
            assert(s2[c].player_id == s0[c].player_id);
        }
    }
    assert(has_player(s1, g1.flag.carrier_id) ==> has_player(s0, g1.flag.carrier_id)) by {
        if has_player(s1, g1.flag.carrier_id) {
            let c = choose|c: int| 0 <= c < s1.len() && s1[c].player_id == g1.flag.carrier_id;
            assert(s1[c].player_id == s0[c].player_id);
        }
    }
    assert(g2.flag_ok()) by {
        assert forall|i: int| 0 <= i < s2.len() implies (#[trigger] s2[i].has_flag <==> ((
        g2.flag.status == FlagStatus::Carried || g2.flag.status == FlagStatus::Outside)
            && g2.flag.carrier_id == s2[i].player_id)) by {
            assert(s2[i].player_id == s0[i].player_id);
            assert(s2[i].has_flag == s0[i].has_flag);
            assert(s0[i].has_flag <==> ((g0.flag.status == FlagStatus::Carried || g0.flag.status
                == FlagStatus::Outside) && g0.flag.carrier_id == s0[i].player_id));
        }
    }
    lemma_interactions_keep_ids(g2, reach);
    lemma_interactions_keep_flag_ok(g2, reach, outside);
    lemma_at_most_one_event(g2, reach);
    let p = g3.players@;
    assert forall|i: int| 0 <= i < p.len() implies 1 <= #[trigger] p[i].player_id && (
    p[i].player_id < g3.next_player_id || g3.next_player_id == u16::MAX) by {
        assert(p[i].player_id == s2[i].player_id);
    }
    assert(keys_distinct(g3.pending_inputs@)) by {
        assert(g3.pending_inputs@ == g1.pending_inputs@);
    }
}

impl GameSession {
    /// Starts a tick: the tick counter grows by one and every player takes
    /// the direction last queued for them; the queue empties.
    pub fn begin_tick(&mut self)
        requires
            old(self).wf(),
            old(self).tick < u32::MAX,
        ensures
            final(self).wf(),
            old(self).flag_ok() ==> final(self).flag_ok(),
            tick_started(*old(self), *final(self)),
    {
        self.tick = self.tick + 1;
        let ghost s = self.players@;
        let ghost inputs = inputs_by_id(self.pending_inputs@);
        let ghost base = *self;
        let mut i: usize = 0;
        while i < self.players.len()
            invariant
                i <= self.players@.len(),
                self.same_outside_players(&base),
                keys_distinct(self.pending_inputs@),
                inputs == inputs_by_id(self.pending_inputs@),
                self.players@.len() == s.len(),
                forall|j: int| 0 <= j < i ==> #[trigger] self.players@[j] == with_input(s[j], inputs),
                forall|j: int| i <= j < s.len() ==> #[trigger] self.players@[j] == s[j],
            decreases self.players.len() - i,
        {
            let id = self.players[i].player_id;
            let ghost before_search = *self;
            let mut k: usize = 0;
            while k < self.pending_inputs.len() && self.pending_inputs[k].0 != id
                invariant
                    *self == before_search,
                    k <= self.pending_inputs@.len(),
                    keys_distinct(self.pending_inputs@),
                    forall|j: int| 0 <= j < k ==> self.pending_inputs@[j].0 != id,
                decreases self.pending_inputs.len() - k,
            {
                k = k + 1;
            }
            if k < self.pending_inputs.len() {
                proof {
                    lemma_inputs_entry(self.pending_inputs@, k as int);
                }
                self.players[i].direction = self.pending_inputs[k].1;
            } else {
                assert(!inputs.dom().contains(id));
            }
            i = i + 1;
        }
        self.pending_inputs.clear();
        proof {
            assert forall|j: int| 0 <= j < self.players@.len() implies 1
                <= #[trigger] self.players@[j].player_id && (self.players@[j].player_id
                < self.next_player_id || self.next_player_id == u16::MAX) by {
                assert(self.players@[j].player_id == s[j].player_id);
            }
            assert forall|a: int, b: int| 0 <= a < b < self.players@.len() implies self.players@[
                a
            ].player_id < self.players@[b].player_id by {
                assert(self.players@[a].player_id == s[a].player_id);
                assert(self.players@[b].player_id == s[b].player_id);
            }
            if flag_consistent(s, self.flag) {
                assert forall|j: int| 0 <= j < self.players@.len() implies (
                    #[trigger] self.players@[j].has_flag <==> ((self.flag.status
                    == FlagStatus::Carried || self.flag.status == FlagStatus::Outside)
                    && self.flag.carrier_id == self.players@[j].player_id)) by {
                    assert(self.players@[j].has_flag == s[j].has_flag);
                    assert(self.players@[j].player_id == s[j].player_id);
                }
                if self.flag.status == FlagStatus::Carried || self.flag.status
                    == FlagStatus::Outside {
                    let c = choose|c: int|
                        0 <= c < s.len() && s[c].player_id == self.flag.carrier_id;
                    assert(self.players@[c].player_id == s[c].player_id);
                }
            }
        }
    }

    /// Moves every player to their new position (given in player order); a
    /// carried flag moves with its carrier.
    pub fn move_players(&mut self, positions: &Vec<(u32, u32)>)
        requires
            old(self).wf(),
            positions@.len() == old(self).players@.len(),
        ensures
            final(self).wf(),
            old(self).flag_ok() ==> final(self).flag_ok(),
            players_moved(*old(self), *final(self), positions@),
    {
        let ghost s = self.players@;
        let ghost base = *self;
        let mut i: usize = 0;
        while i < self.players.len()
            invariant
                i <= self.players@.len(),
                self.same_outside_players(&base),
                self.players@.len() == s.len(),
                positions@.len() == s.len(),
                forall|j: int| 0 <= j < i ==> #[trigger] self.players@[j] == moved(s[j], positions@[j]),
                forall|j: int| i <= j < s.len() ==> #[trigger] self.players@[j] == s[j],
            decreases self.players.len() - i,
        {
            let (x, y) = positions[i];
            self.players[i].x = x;
            self.players[i].y = y;
            i = i + 1;
        }
        proof {
            assert forall|j: int| 0 <= j < self.players@.len() implies 1
                <= #[trigger] self.players@[j].player_id && (self.players@[j].player_id
                < self.next_player_id || self.next_player_id == u16::MAX) by {
                assert(self.players@[j].player_id == s[j].player_id);
            }
            assert forall|a: int, b: int| 0 <= a < b < self.players@.len() implies self.players@[
                a
            ].player_id < self.players@[b].player_id by {
                assert(self.players@[a].player_id == s[a].player_id);
                assert(self.players@[b].player_id == s[b].player_id);
            }
        }
        if self.flag.status == FlagStatus::Carried {
            match find_player(&self.players, self.flag.carrier_id) {
                Some(k) => {
                    proof {
                        assert(has_player(s, self.flag.carrier_id)) by {
                            assert(s[k as int].player_id == self.flag.carrier_id);
                        }
                        lemma_index_of_unique(s, k as int);
                    }
                    self.flag.x = self.players[k].x;
                    self.flag.y = self.players[k].y;
                },
                None => {
                    proof {
                        if has_player(s, self.flag.carrier_id) {
                            let c = choose|c: int|
                                0 <= c < s.len() && s[c].player_id == self.flag.carrier_id;
                            assert(self.players@[c].player_id == s[c].player_id);
                        }
                    }
                },
            }
        }
        proof {
            if flag_consistent(s, base.flag) {
                assert forall|j: int| 0 <= j < self.players@.len() implies (
                    #[trigger] self.players@[j].has_flag <==> ((self.flag.status
                    == FlagStatus::Carried || self.flag.status == FlagStatus::Outside)
                    && self.flag.carrier_id == self.players@[j].player_id)) by {
                    assert(self.players@[j].has_flag == s[j].has_flag);
                    assert(self.players@[j].player_id == s[j].player_id);
                }
                if self.flag.status == FlagStatus::Carried || self.flag.status
                    == FlagStatus::Outside {
                    let c = choose|c: int|
                        0 <= c < s.len() && s[c].player_id == self.flag.carrier_id;
                    assert(self.players@[c].player_id == s[c].player_id);
                }
            }
        }
    }

    /// The point a player must be near to interact: the flag itself while
    /// it lies on the map, its carrier while it is carried, none once it
    /// has left the circle (or when its carrier is not in the game).
    pub fn flag_target(&self) -> (r: Option<(u32, u32)>)
        requires
            self.wf(),
        ensures
            r == match self.flag.status {
                FlagStatus::Available | FlagStatus::Dropped => Some((self.flag.x, self.flag.y)),
                FlagStatus::Carried => if has_player(self.players@, self.flag.carrier_id) {
                    let c = self.players@[index_of(self.players@, self.flag.carrier_id)];
                    Some((c.x, c.y))
                } else {
                    None
                },
                FlagStatus::Outside => None,
            },
    {
        match self.flag.status {
            FlagStatus::Available | FlagStatus::Dropped => Some((self.flag.x, self.flag.y)),
            FlagStatus::Carried => match find_player(&self.players, self.flag.carrier_id) {
                Some(k) => Some((self.players[k].x, self.players[k].y)),
                None => None,
            },
            FlagStatus::Outside => None,
        }
    }

    /// Every player holds the flag exactly when they are `player_id` (at
    /// position `a`), who carries it from where they stand.
    fn give_flag(&mut self, player_id: u16, a: usize)
        requires
            a < old(self).players@.len(),
            old(self).players@[a as int].player_id == player_id,
        ensures
            final(self).players@ == give_flag_to(old(self).players@, player_id),
            final(self).flag == (Flag {
                status: FlagStatus::Carried,
                carrier_id: player_id,
                x: old(self).players@[a as int].x,
                y: old(self).players@[a as int].y,
            }),
            final(self).same_outside_players_but_flag(old(self)),
    {
        let ghost s = self.players@;
        let ghost base = *self;
        let mut i: usize = 0;
        while i < self.players.len()
            invariant
                i <= self.players@.len(),
                self.same_outside_players(&base),
                self.players@.len() == s.len(),
                forall|j: int|
                    0 <= j < i ==> #[trigger] self.players@[j] == give_flag_to(s, player_id)[j],
                forall|j: int| i <= j < s.len() ==> #[trigger] self.players@[j] == s[j],
            decreases self.players.len() - i,
        {
            let holds = self.players[i].player_id == player_id;
            self.players[i].has_flag = holds;
            i = i + 1;
        }
        assert(self.players@ =~= give_flag_to(s, player_id));
        self.flag = Flag {
            status: FlagStatus::Carried,
            carrier_id: player_id,
            x: self.players[a].x,
            y: self.players[a].y,
        };
    }

    /// `from` lets go of the flag and `to` (at position `b`) carries it from
    /// where they stand.
    fn transfer_flag(&mut self, from: u16, to: u16, b: usize)
        requires
            b < old(self).players@.len(),
            old(self).players@[b as int].player_id == to,
            from != to,
        ensures
            final(self).players@ == pass_flag(old(self).players@, from, to),
            final(self).flag == (Flag {
                status: FlagStatus::Carried,
                carrier_id: to,
                x: old(self).players@[b as int].x,
                y: old(self).players@[b as int].y,
            }),
            final(self).same_outside_players_but_flag(old(self)),
    {
        let ghost s = self.players@;
        let ghost base = *self;
        let mut i: usize = 0;
        while i < self.players.len()
            invariant
                i <= self.players@.len(),
                self.same_outside_players(&base),
                self.players@.len() == s.len(),
                forall|j: int|
                    0 <= j < i ==> #[trigger] self.players@[j] == pass_flag(s, from, to)[j],
                forall|j: int| i <= j < s.len() ==> #[trigger] self.players@[j] == s[j],
            decreases self.players.len() - i,
        {
            let id = self.players[i].player_id;
            if id == from {
                self.players[i].has_flag = false;
            } else if id == to {
                self.players[i].has_flag = true;
            }
            i = i + 1;
        }
        assert(self.players@ =~= pass_flag(s, from, to));
        self.flag = Flag {
            status: FlagStatus::Carried,
            carrier_id: to,
            x: self.players[b].x,
            y: self.players[b].y,
        };
    }

    /// Plays out the queued interactions, in player-id order, against the
    /// state at the start of the tick: the first player who can take the
    /// flag picks it up (or steals it from its carrier). `reach[i]` tells
    /// whether player `i` is close enough to their target: the flag when it
    /// is free, its carrier when it is carried. The queue empties.
    fn run_interactions(&mut self, reach: &Vec<bool>) -> (events: Vec<TickEvent>)
        requires
            old(self).wf(),
            reach@.len() == old(self).players@.len(),
        ensures
            ({
                let (p, f, ev) = interactions_outcome(*old(self), reach@);
                &&& final(self).players@ == p
                &&& final(self).flag == f
                &&& events@ == ev
            }),
            final(self).pending_interacts@.len() == 0,
            final(self).game_id == old(self).game_id,
            final(self).server_name == old(self).server_name,
            final(self).state == old(self).state,
            final(self).tick == old(self).tick,
            final(self).next_player_id == old(self).next_player_id,
            final(self).winner_id == old(self).winner_id,
            final(self).pending_inputs == old(self).pending_inputs,
    {
        let ghost s = self.players@;
        let ghost f = self.flag;
        let ghost pending = self.pending_interacts@;
        let snapshot_flag = self.flag;
        let mut events: Vec<TickEvent> = Vec::new();
        let mut i: usize = 0;
        while i < self.pending_interacts.len()
            invariant
                i <= pending.len(),
                self.pending_interacts@ == pending,
                snapshot_flag == f,
                reach@.len() == s.len(),
                ids_increasing(s),
                forall|j: int| 0 <= j < s.len() ==> 1 <= #[trigger] s[j].player_id,
                self.game_id == old(self).game_id,
                self.server_name == old(self).server_name,
                self.state == old(self).state,
                self.tick == old(self).tick,
                self.next_player_id == old(self).next_player_id,
                self.winner_id == old(self).winner_id,
                self.pending_inputs == old(self).pending_inputs,
                s == old(self).players@,
                f == old(self).flag,
                pending == old(self).pending_interacts@,
                match first_taker(pending.take(i as int), s, f, reach@) {
                    Some(w) => self.players@ == players_after_take(s, f, w) && self.flag
                        == flag_taken_by(s, w) && events@ == seq![take_event(f, w, self.tick)]
                        && has_player(s, w) && can_take_flag(s, f, reach@, w),
                    None => self.players@ == s && self.flag == f && events@ == Seq::<
                        TickEvent,
                    >::empty(),
                },
            decreases pending.len() - i,
        {
            let ghost before = first_taker(pending.take(i as int), s, f, reach@);
            let player_id = self.pending_interacts[i];
            proof {
                assert(pending.take(i + 1).drop_last() =~= pending.take(i as int));
                assert(pending.take(i + 1).last() == player_id);
            }
            let ghost players_now = self.players@;
            proof {
                if let Some(w) = before {
                    assert(ids_increasing(players_now)) by {
                        assert forall|a: int, b: int| 0 <= a < b < players_now.len() implies players_now[a].player_id < players_now[b].player_id by {
                            assert(players_now[a].player_id == s[a].player_id);
                            assert(players_now[b].player_id == s[b].player_id);
                        }
                    }
                    assert(players_now.len() == s.len());
                }
            }
            match find_player(&self.players, player_id) {
                None => {
                    proof {
                        if before is None {
                            assert(!can_take_flag(s, f, reach@, player_id));
                        }
                    }
                },
                Some(a) => {
                    proof {
                        if before is None {
                            lemma_index_of_unique(s, a as int);
                        }
                    }
                    if !self.players[a].has_flag && reach[a] {
                        match snapshot_flag.status {
                            FlagStatus::Available | FlagStatus::Dropped => {
                                if self.flag.carrier_id == 0 {
                                    proof {
                                        if let Some(w) = before {
                                            assert(self.flag.carrier_id == w);
                                            lemma_index_of_unique(s, index_of(s, w));
                                        }
                                    }
                                    let tick = self.tick;
                                    self.give_flag(player_id, a);
                                    events.push(TickEvent::FlagPickedUp { tick, player_id });
                                    proof {
                                        assert(events@ =~= seq![take_event(f, player_id, tick)]);
                                    }
                                }
                            },
                            FlagStatus::Carried => {
                                let carrier_id = snapshot_flag.carrier_id;
                                if carrier_id != 0 && carrier_id != player_id {
                                    let target = find_player(&self.players, carrier_id);
                                    if target.is_some() && self.flag.carrier_id == carrier_id {
                                        proof {
                                            if let Some(w) = before {
                                                assert(self.flag.carrier_id == w);
                                            }
                                        }
                                        let tick = self.tick;
                                        self.transfer_flag(carrier_id, player_id, a);
                                        events.push(
                                            TickEvent::FlagStolen {
                                                tick,
                                                previous_carrier_id: carrier_id,
                                                new_carrier_id: player_id,
                                            },
                                        );
                                        proof {
                                            assert(events@ =~= seq![take_event(f, player_id, tick)]);
                                        }
                                    }
                                }
                            },
                            FlagStatus::Outside => {},
                        }
                    }
                },
            }
            i = i + 1;
        }
        self.pending_interacts.clear();
        proof {
            assert(pending.take(pending.len() as int) =~= pending);
        }
        events
    }

    /// The victory check: a carried flag sits where its carrier stands; if
    /// the carrier is outside the circle (`outside[i]` for player `i`), the
    /// game is over, won by the carrier. Gives back the game-over message.
    fn check_victory(&mut self, outside: &Vec<bool>) -> (r: Option<ServerMessage>)
        requires
            ids_increasing(old(self).players@),
            outside@.len() == old(self).players@.len(),
        ensures
            final(self).players == old(self).players,
            final(self).flag == flag_after_check(old(self).players@, old(self).flag, outside@),
            carrier_escapes(old(self).players@, old(self).flag, outside@) ==> {
                &&& final(self).state == GamePhase::Finished
                &&& final(self).winner_id == Some(old(self).flag.carrier_id)
                &&& r matches Some(m) && m@ == (ServerMessageModel::GameOver {
                    winner_id: old(self).flag.carrier_id,
                    winner_name: old(self).players@[index_of(
                        old(self).players@,
                        old(self).flag.carrier_id,
                    )].name@,
                    reason: GameOverReason::ExitedCircleWithFlag,
                })
            },
            !carrier_escapes(old(self).players@, old(self).flag, outside@) ==> {
                &&& final(self).state == old(self).state
                &&& final(self).winner_id == old(self).winner_id
                &&& r is None
            },
            final(self).game_id == old(self).game_id,
            final(self).server_name == old(self).server_name,
            final(self).tick == old(self).tick,
            final(self).next_player_id == old(self).next_player_id,
            final(self).pending_inputs == old(self).pending_inputs,
            final(self).pending_interacts == old(self).pending_interacts,
    {
        if self.flag.status == FlagStatus::Carried {
            match find_player(&self.players, self.flag.carrier_id) {
                Some(k) => {
                    self.flag.x = self.players[k].x;
                    self.flag.y = self.players[k].y;
                    if outside[k] {
                        let winner_id = self.players[k].player_id;
                        self.state = GamePhase::Finished;
                        self.flag.status = FlagStatus::Outside;
                        self.winner_id = Some(winner_id);
                        return Some(
                            ServerMessage::GameOver {
                                winner_id,
                                winner_name: self.players[k].name.clone(),
                                reason: GameOverReason::ExitedCircleWithFlag,
                            },
                        );
                    }
                },
                None => {},
            }
        }
        None
    }

    /// Ends a tick whose players have moved: plays out the interactions
    /// (see `can_take_flag` and `first_taker`), then checks for victory.
    /// `reach[i]` tells whether player `i` is within interaction range of
    /// their target, `outside[i]` whether they stand outside the circle.
    /// Gives back the pickups and thefts, and the game-over message if the
    /// game was won.
    pub fn resolve_interactions(&mut self, reach: &Vec<bool>, outside: &Vec<bool>) -> (r: (
        Vec<TickEvent>,
        Option<ServerMessage>,
    ))
        requires
            old(self).wf(),
            reach@.len() == old(self).players@.len(),
            outside@.len() == old(self).players@.len(),
        ensures
            final(self).wf(),
            old(self).flag_ok() ==> final(self).flag_ok(),
            interactions_resolved(*old(self), *final(self), reach@, outside@, r.0@, r.1),
    {
        let events = self.run_interactions(reach);
        proof {
            lemma_interactions_keep_ids(*old(self), reach@);
        }
        let game_over = self.check_victory(outside);
        proof {
            lemma_interactions_keep_flag_ok(*old(self), reach@, outside@);
        }
        (events, game_over)
    }
}

// ================================================================= messages

/// The message that announces a pickup or a theft.
pub open spec fn event_message(e: TickEvent) -> ServerMessageModel {
    match e {
        TickEvent::FlagPickedUp { tick, player_id } => ServerMessageModel::FlagPickedUp {
            tick,
            player_id,
        },
        TickEvent::FlagStolen { tick, previous_carrier_id, new_carrier_id } =>
            ServerMessageModel::FlagStolen { tick, previous_carrier_id, new_carrier_id },
    }
}

impl TickEvent {
    /// The message that announces the event.
    pub fn message(&self) -> (r: ServerMessage)
        ensures
            r@ == event_message(*self),
    {
        match *self {
            TickEvent::FlagPickedUp { tick, player_id } => ServerMessage::FlagPickedUp {
                tick,
                player_id,
            },
            TickEvent::FlagStolen { tick, previous_carrier_id, new_carrier_id } =>
                ServerMessage::FlagStolen { tick, previous_carrier_id, new_carrier_id },
        }
    }
}

/// The game-state entry of each player, at the given wire coordinates.
pub open spec fn state_entries(players: Seq<Player>, at: Seq<(i32, i32)>) -> Seq<PlayerStateWire> {
    Seq::new(
        players.len(),
        |i: int|
            PlayerStateWire {
                player_id: players[i].player_id,
                x: at[i].0,
                y: at[i].1,
                direction: players[i].direction,
                has_flag: players[i].has_flag,
            },
    )
}

/// The game-started entry of each player, at the given wire coordinates.
pub open spec fn started_entries(players: Seq<Player>, at: Seq<(i32, i32)>) -> Seq<PlayerWireModel> {
    Seq::new(
        players.len(),
        |i: int|
            PlayerWireModel {
                player_id: players[i].player_id,
                name: players[i].name@,
                x: at[i].0,
                y: at[i].1,
                direction: players[i].direction,
                has_flag: players[i].has_flag,
            },
    )
}

/// The game-state entries show who holds the flag: in a game whose flag is
/// consistent, an entry says its player holds the flag exactly when the
/// flag is carried (or has left the circle) and that player is its carrier;
/// each entry is its player's, in order, with their direction and at their
/// given position.
pub proof fn lemma_state_entries_show_the_carrier(g: GameSession, at: Seq<(i32, i32)>)
    requires
        g.flag_ok(),
        at.len() == g.players@.len(),
    ensures
        state_entries(g.players@, at).len() == g.players@.len(),
        forall|i: int|
            0 <= i < g.players@.len() ==> {
                let e = #[trigger] state_entries(g.players@, at)[i];
                &&& e.player_id == g.players@[i].player_id
                &&& e.direction == g.players@[i].direction
                &&& e.x == at[i].0 && e.y == at[i].1
                &&& (e.has_flag <==> ((g.flag.status == FlagStatus::Carried || g.flag.status
                    == FlagStatus::Outside) && g.flag.carrier_id == e.player_id))
            },
        (g.flag.status == FlagStatus::Carried || g.flag.status == FlagStatus::Outside) ==> exists|
            i: int,
        |
            0 <= i < g.players@.len() && #[trigger] state_entries(g.players@, at)[i].player_id
                == g.flag.carrier_id && state_entries(g.players@, at)[i].has_flag,
{
    let es = state_entries(g.players@, at);
    assert forall|i: int| 0 <= i < g.players@.len() implies {
        let e = #[trigger] es[i];
        &&& e.player_id == g.players@[i].player_id
        &&& e.direction == g.players@[i].direction
        &&& e.x == at[i].0 && e.y == at[i].1
        &&& (e.has_flag <==> ((g.flag.status == FlagStatus::Carried || g.flag.status
            == FlagStatus::Outside) && g.flag.carrier_id == e.player_id))
    } by {
        assert(g.players@[i].has_flag <==> ((g.flag.status == FlagStatus::Carried
            || g.flag.status == FlagStatus::Outside) && g.flag.carrier_id
            == g.players@[i].player_id));
    }
    if g.flag.status == FlagStatus::Carried || g.flag.status == FlagStatus::Outside {
        let c = choose|c: int| 0 <= c < g.players@.len() && g.players@[c].player_id == g.flag.carrier_id;
        assert(g.players@[c].has_flag);
        assert(es[c].player_id == g.flag.carrier_id && es[c].has_flag);
    }
}

impl GameSession {
    /// The game-state message: the tick, the flag (at `flag_at` in wire
    /// units) and every player in id order (at `at[i]` in wire units).
    pub fn game_state_message(&self, flag_at: (i32, i32), at: &Vec<(i32, i32)>) -> (r: ServerMessage)
        requires
            at@.len() == self.players@.len(),
        ensures
            r@ == (ServerMessageModel::GameState {
                tick: self.tick,
                flag_status: self.flag.status,
                flag_carrier_id: self.flag.carrier_id,
                flag_x: flag_at.0,
                flag_y: flag_at.1,
                players: state_entries(self.players@, at@),
            }),
            r@ matches ServerMessageModel::GameState { players: ps, .. } && ps.len()
                == self.players@.len() && forall|i: int|
                0 <= i < ps.len() ==> (#[trigger] ps[i]).has_flag == self.players@[i].has_flag
                    && ps[i].player_id == self.players@[i].player_id && ps[i].direction
                    == self.players@[i].direction,
    {
        let mut players: Vec<PlayerStateWire> = Vec::new();
        let mut i: usize = 0;
        while i < self.players.len()
            invariant
                i <= self.players@.len(),
                at@.len() == self.players@.len(),
                players@ == state_entries(self.players@, at@).take(i as int),
            decreases self.players.len() - i,
        {
            let (x, y) = at[i];
            let entry = PlayerStateWire {
                player_id: self.players[i].player_id,
                x,
                y,
                direction: self.players[i].direction,
                has_flag: self.players[i].has_flag,
            };
            players.push(entry);
            i = i + 1;
            assert(players@ =~= state_entries(self.players@, at@).take(i as int));
        }
        assert(state_entries(self.players@, at@).take(i as int) =~= state_entries(
            self.players@,
            at@,
        ));
        ServerMessage::GameState {
            tick: self.tick,
            flag_status: self.flag.status,
            flag_carrier_id: self.flag.carrier_id,
            flag_x: flag_at.0,
            flag_y: flag_at.1,
            players,
        }
    }

    /// The game-started message: the world's dimensions and tick interval,
    /// the flag (at `flag_at`) and every player in id order (at `at[i]`),
    /// all in wire units.
    pub fn game_started_message(
        &self,
        map_size: i32,
        circle_radius: i32,
        player_radius: i32,
        player_speed: i32,
        interaction_radius: i32,
        tick_interval_ms: u16,
        flag_at: (i32, i32),
        at: &Vec<(i32, i32)>,
    ) -> (r: ServerMessage)
        requires
            at@.len() == self.players@.len(),
        ensures
            r@ == (ServerMessageModel::GameStarted {
                map_size,
                circle_radius,
                player_radius,
                player_speed,
                interaction_radius,
                tick_interval_ms,
                flag_status: self.flag.status,
                flag_carrier_id: self.flag.carrier_id,
                flag_x: flag_at.0,
                flag_y: flag_at.1,
                players: started_entries(self.players@, at@),
            }),
    {
        let mut players: Vec<PlayerWire> = Vec::new();
        let mut i: usize = 0;
        while i < self.players.len()
            invariant
                i <= self.players@.len(),
                at@.len() == self.players@.len(),
                player_wires_view(players@) == started_entries(self.players@, at@).take(i as int),
            decreases self.players.len() - i,
        {
            let ghost before = players@;
            let (x, y) = at[i];
            let entry = PlayerWire {
                player_id: self.players[i].player_id,
                name: self.players[i].name.clone(),
                x,
                y,
                direction: self.players[i].direction,
                has_flag: self.players[i].has_flag,
            };
            players.push(entry);
            proof {
                assert(player_wires_view(players@) =~= player_wires_view(before).push(entry@));
            }
            i = i + 1;
            assert(player_wires_view(players@) =~= started_entries(self.players@, at@).take(
                i as int,
            ));
        }
        assert(started_entries(self.players@, at@).take(i as int) =~= started_entries(
            self.players@,
            at@,
        ));
        ServerMessage::GameStarted {
            map_size,
            circle_radius,
            player_radius,
            player_speed,
            interaction_radius,
            tick_interval_ms,
            flag_status: self.flag.status,
            flag_carrier_id: self.flag.carrier_id,
            flag_x: flag_at.0,
            flag_y: flag_at.1,
            players,
        }
    }
}

} // verus!
