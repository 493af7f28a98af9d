//! What a player's client knows of the game, kept up to date from the
//! server's messages.
//!
//! Positions stay in wire units (hundredths of a world unit); drawing them
//! is the caller's business. Each server message changes the view and
//! yields a notice, the line the client shows its player.
use vstd::prelude::*;
use vstd::string::*;
use crate::codes::{Direction, ErrorCode, FlagStatus, GamePhase, JoinRejectReason};
use crate::messages::{
    lobby_players_view, player_wires_view, ClientMessage, ClientMessageModel, LobbyPlayer,
    LobbyPlayerModel,
    PlayerStateWire, PlayerWireModel, ServerMessage, ServerMessageModel,
};

verus! {

// ================================================================= names

/// The character of a decimal digit.
pub open spec fn digit_char(d: nat) -> char {
    if d == 0 {
        '0'
    } else if d == 1 {
        '1'
    } else if d == 2 {
        '2'
    } else if d == 3 {
        '3'
    } else if d == 4 {
        '4'
    } else if d == 5 {
        '5'
    } else if d == 6 {
        '6'
    } else if d == 7 {
        '7'
    } else if d == 8 {
        '8'
    } else {
        '9'
    }
}

/// The decimal digits of a number, without leading zeros.
pub open spec fn decimal(n: nat) -> Seq<char>
    decreases n,
{
    if n < 10 {
        seq![digit_char(n)]
    } else {
        decimal(n / 10) + seq![digit_char(n % 10)]
    }
}

/// The name shown for a player the client has not been told the name of:
/// `P` and the id in decimal.
pub open spec fn placeholder_name(player_id: u16) -> Seq<char> {
    seq!['P'] + decimal(player_id as nat)
}

fn digit_str(d: u16) -> (r: &'static str)
    requires
        d < 10,
    ensures
        r@ == seq![digit_char(d as nat)],
{
    if d == 0 {
        proof {
            reveal_strlit("0");
        }
        "0"
    } else if d == 1 {
        proof {
            reveal_strlit("1");
        }
        "1"
    } else if d == 2 {
        proof {
            reveal_strlit("2");
        }
        "2"
    } else if d == 3 {
        proof {
            reveal_strlit("3");
        }
        "3"
    } else if d == 4 {
        proof {
            reveal_strlit("4");
        }
        "4"
    } else if d == 5 {
        proof {
            reveal_strlit("5");
        }
        "5"
    } else if d == 6 {
        proof {
            reveal_strlit("6");
        }
        "6"
    } else if d == 7 {
        proof {
            reveal_strlit("7");
        }
        "7"
    } else if d == 8 {
        proof {
            reveal_strlit("8");
        }
        "8"
    } else {
        proof {
            reveal_strlit("9");
        }
        "9"
    }
}

fn push_decimal(out: &mut String, n: u16)
    ensures
        final(out)@ == old(out)@ + decimal(n as nat),
    decreases n,
{
    if n >= 10 {
        push_decimal(out, n / 10);
    }
    out.append(digit_str(n % 10));
    proof {
        if n >= 10 {
            assert(old(out)@ + decimal((n / 10) as nat) + seq![digit_char((n % 10) as nat)]
                =~= old(out)@ + decimal(n as nat));
        } else {
            assert(n % 10 == n);
        }
    }
}

/// The placeholder name of a player.
fn placeholder_name_of(player_id: u16) -> (r: String)
    ensures
        r@ == placeholder_name(player_id),
{
    let mut out = String::from_str("P");
    proof {
        reveal_strlit("P");
    }
    push_decimal(&mut out, player_id);
    out
}

// ================================================================= roster

/// A player as the client knows them.
#[derive(Debug, Clone)]
pub struct ClientPlayer {
    pub player_id: u16,
    pub name: String,
    pub x: i32,
    pub y: i32,
    pub has_flag: bool,
}

/// What the client knows of a player, by id.
pub struct RosterEntry {
    pub name: Seq<char>,
    pub x: i32,
    pub y: i32,
    pub has_flag: bool,
}

pub open spec fn entry_of(p: ClientPlayer) -> RosterEntry {
    RosterEntry { name: p.name@, x: p.x, y: p.y, has_flag: p.has_flag }
}

pub open spec fn roster_ids_distinct(s: Seq<ClientPlayer>) -> bool {
    forall|i: int, j: int| 0 <= i < j < s.len() ==> s[i].player_id != s[j].player_id
}

pub open spec fn in_roster(s: Seq<ClientPlayer>, id: u16) -> bool {
    exists|i: int| 0 <= i < s.len() && s[i].player_id == id
}

/// The known players as a map from id to what is known of them.
pub open spec fn roster(s: Seq<ClientPlayer>) -> Map<u16, RosterEntry> {
    Map::new(
        |id: u16| in_roster(s, id),
        |id: u16| entry_of(s[choose|i: int| 0 <= i < s.len() && s[i].player_id == id]),
    )
}

proof fn lemma_roster_entry(s: Seq<ClientPlayer>, j: int)
    requires
        roster_ids_distinct(s),
        0 <= j < s.len(),
    ensures
        roster(s).dom().contains(s[j].player_id),
        roster(s)[s[j].player_id] == entry_of(s[j]),
{
    let id = s[j].player_id;
    assert(in_roster(s, id));
    let k = choose|i: int| 0 <= i < s.len() && s[i].player_id == id;
    if k != j {
        if k < j {
            assert(s[k].player_id != s[j].player_id);
        } else {
            assert(s[j].player_id != s[k].player_id);
        }
    }
}

fn find_client_player(players: &Vec<ClientPlayer>, player_id: u16) -> (r: Option<usize>)
    requires
        roster_ids_distinct(players@),
    ensures
        match r {
            Some(i) => i < players@.len() && players@[i as int].player_id == player_id,
            None => !in_roster(players@, player_id),
        },
{
    let mut i: usize = 0;
    while i < players.len()
        invariant
            i <= players@.len(),
            forall|j: int| 0 <= j < i ==> players@[j].player_id != player_id,
        decreases players.len() - i,
    {
        if players[i].player_id == player_id {
            return Some(i);
        }
        i = i + 1;
    }
    None
}

/// Records what is known of a player, replacing what was known before.
fn set_player(players: &mut Vec<ClientPlayer>, p: ClientPlayer)
    requires
        roster_ids_distinct(old(players)@),
    ensures
        roster_ids_distinct(final(players)@),
        roster(final(players)@) == roster(old(players)@).insert(p.player_id, entry_of(p)),
{
    let ghost s = players@;
    let ghost q = p;
    match find_client_player(players, p.player_id) {
        Some(i) => {
            players.set(i, p);
            proof {
                let t = players@;
                assert(t == s.update(i as int, q));
                assert(roster_ids_distinct(t)) by {
                    assert forall|a: int, b: int| 0 <= a < b < t.len() implies t[a].player_id
                        != t[b].player_id by {
                        assert(s[a].player_id != s[b].player_id);
                    }
                }
                assert forall|k: u16| #![auto] roster(t).dom().contains(k) == roster(s).insert(
                    q.player_id,
                    entry_of(q),
                ).dom().contains(k) by {
                    if in_roster(t, k) {
                        let a = choose|a: int| 0 <= a < t.len() && t[a].player_id == k;
                        assert(s[a].player_id == t[a].player_id);
                    }
                    if in_roster(s, k) {
                        let a = choose|a: int| 0 <= a < s.len() && s[a].player_id == k;
                        assert(t[a].player_id == s[a].player_id);
                    }
                    assert(t[i as int].player_id == q.player_id);
                }
                assert forall|k: u16| #[trigger]
                    roster(t).dom().contains(k) implies roster(t)[k] == roster(s).insert(
                    q.player_id,
                    entry_of(q),
                )[k] by {
                    let a = choose|a: int| 0 <= a < t.len() && t[a].player_id == k;
                    lemma_roster_entry(t, a);
                    if a != i {
                        lemma_roster_entry(s, a);
                    }
                }
                assert(roster(t) =~= roster(s).insert(q.player_id, entry_of(q)));
            }
        },
        None => {
            players.push(p);
            proof {
                let t = players@;
                assert(t == s.push(q));
                assert(roster_ids_distinct(t)) by {
                    assert forall|a: int, b: int| 0 <= a < b < t.len() implies t[a].player_id
                        != t[b].player_id by {
                        if b < s.len() {
                            assert(t[a] == s[a] && t[b] == s[b]);
                        } else {
                            assert(t[a] == s[a]);
                        }
                    }
                }
                assert forall|k: u16| #![auto] roster(t).dom().contains(k) == roster(s).insert(
                    q.player_id,
                    entry_of(q),
                ).dom().contains(k) by {
                    if in_roster(t, k) {
                        let a = choose|a: int| 0 <= a < t.len() && t[a].player_id == k;
                        if a < s.len() {
                            assert(s[a] == t[a]);
                        }
                    }
                    if in_roster(s, k) {
                        let a = choose|a: int| 0 <= a < s.len() && s[a].player_id == k;
                        assert(t[a] == s[a]);
                    }
                    assert(t[s.len() as int].player_id == q.player_id);
                }
                assert forall|k: u16| #[trigger]
                    roster(t).dom().contains(k) implies roster(t)[k] == roster(s).insert(
                    q.player_id,
                    entry_of(q),
                )[k] by {
                    let a = choose|a: int| 0 <= a < t.len() && t[a].player_id == k;
                    lemma_roster_entry(t, a);
                    if a < s.len() {
                        assert(t[a] == s[a]);
                        lemma_roster_entry(s, a);
                    }
                }
                assert(roster(t) =~= roster(s).insert(q.player_id, entry_of(q)));
            }
        },
    }
}

/// Forgets a player, if known.
fn drop_player(players: &mut Vec<ClientPlayer>, player_id: u16)
    requires
        roster_ids_distinct(old(players)@),
    ensures
        roster_ids_distinct(final(players)@),
        roster(final(players)@) == roster(old(players)@).remove(player_id),
{
    let ghost s = players@;
    match find_client_player(players, player_id) {
        Some(i) => {
            players.remove(i);
            proof {
                let t = players@;
                assert(t == s.remove(i as int));
                assert(roster_ids_distinct(t)) by {
                    assert forall|a: int, b: int| 0 <= a < b < t.len() implies t[a].player_id
                        != t[b].player_id by {
                        let sa = if a < i { a } else { a + 1 };
                        let sb = if b < i { b } else { b + 1 };
                        assert(t[a] == s[sa] && t[b] == s[sb]);
                    }
                }
                assert forall|k: u16| #![auto] roster(t).dom().contains(k) == roster(s).remove(
                    player_id,
                ).dom().contains(k) by {
                    if in_roster(t, k) {
                        let a = choose|a: int| 0 <= a < t.len() && t[a].player_id == k;
                        let sa = if a < i { a } else { a + 1 };
                        assert(t[a] == s[sa]);
                        assert(sa != i);
                    }
                    if in_roster(s, k) && k != player_id {
                        let a = choose|a: int| 0 <= a < s.len() && s[a].player_id == k;
                        assert(a != i);
                        let ta = if a < i { a } else { a - 1 };
                        assert(t[ta] == s[a]);
                    }
                }
                assert forall|k: u16| #[trigger]
                    roster(t).dom().contains(k) implies roster(t)[k] == roster(s).remove(
                    player_id,
                )[k] by {
                    let a = choose|a: int| 0 <= a < t.len() && t[a].player_id == k;
                    let sa = if a < i { a } else { a + 1 };
                    assert(t[a] == s[sa]);
                    lemma_roster_entry(t, a);
                    lemma_roster_entry(s, sa);
                }
                assert(roster(t) =~= roster(s).remove(player_id));
            }
        },
        None => {
            assert(roster(s) =~= roster(s).remove(player_id));
        },
    }
}

// ================================================================= the view

/// The roster after a game-started message: every listed player, a later
/// entry for an id replacing an earlier one.
pub open spec fn started_roster(ps: Seq<PlayerWireModel>) -> Map<u16, RosterEntry>
    decreases ps.len(),
{
    if ps.len() == 0 {
        Map::empty()
    } else {
        let p = ps.last();
        started_roster(ps.drop_last()).insert(
            p.player_id,
            RosterEntry { name: p.name, x: p.x, y: p.y, has_flag: p.has_flag },
        )
    }
}

/// The roster after the entries of a game-state message, one after the
/// other: a known player keeps their name, an unknown one gets a
/// placeholder; position and flag come from the entry.
pub open spec fn roster_after_state(m: Map<u16, RosterEntry>, ps: Seq<PlayerStateWire>) -> Map<
    u16,
    RosterEntry,
>
    decreases ps.len(),
{
    if ps.len() == 0 {
        m
    } else {
        let before = roster_after_state(m, ps.drop_last());
        let p = ps.last();
        let name = if before.dom().contains(p.player_id) {
            before[p.player_id].name
        } else {
            placeholder_name(p.player_id)
        };
        before.insert(p.player_id, RosterEntry { name, x: p.x, y: p.y, has_flag: p.has_flag })
    }
}

/// What the client knows: whether it holds a connection, its player id
/// (0 before it is accepted), the map and the flag in wire units, the last
/// tick it took, the lobby, the players and whether a game is on.
#[derive(Debug)]
pub struct ClientView {
    pub connected: bool,
    pub player_id: u16,
    pub map_size: i32,
    pub circle_radius: i32,
    pub flag_x: i32,
    pub flag_y: i32,
    pub tick: u32,
    pub lobby_players: Vec<LobbyPlayer>,
    /// The known players, one entry per id.
    pub players: Vec<ClientPlayer>,
    pub is_running: bool,
}

pub struct ClientViewModel {
    pub connected: bool,
    pub player_id: u16,
    pub map_size: i32,
    pub circle_radius: i32,
    pub flag_x: i32,
    pub flag_y: i32,
    pub tick: u32,
    pub lobby: Seq<LobbyPlayerModel>,
    pub players: Map<u16, RosterEntry>,
    pub is_running: bool,
}

impl View for ClientView {
    type V = ClientViewModel;

    open spec fn view(&self) -> ClientViewModel {
        ClientViewModel {
            connected: self.connected,
            player_id: self.player_id,
            map_size: self.map_size,
            circle_radius: self.circle_radius,
            flag_x: self.flag_x,
            flag_y: self.flag_y,
            tick: self.tick,
            lobby: lobby_players_view(self.lobby_players@),
            players: roster(self.players@),
            is_running: self.is_running,
        }
    }
}

/// The line the client shows after a server message.
#[derive(Debug)]
pub enum ClientNotice {
    JoinAccepted { game_id: u16, player_id: u16 },
    JoinRejected(JoinRejectReason),
    Lobby(GamePhase),
    Countdown(u8),
    Started,
    /// A new tick, with the flag's carrier if it is carried.
    Tick { tick: u32, carrier: Option<u16> },
    /// A game state older than the last one taken: ignored.
    Stale,
    FlagPickedUp(u16),
    FlagStolen { previous_carrier_id: u16, new_carrier_id: u16 },
    PlayerLeft(u16),
    GameOver { winner_id: u16, winner_name: String },
    Error { code: ErrorCode, description: String },
}

pub enum ClientNoticeModel {
    JoinAccepted { game_id: u16, player_id: u16 },
    JoinRejected(JoinRejectReason),
    Lobby(GamePhase),
    Countdown(u8),
    Started,
    Tick { tick: u32, carrier: Option<u16> },
    Stale,
    FlagPickedUp(u16),
    FlagStolen { previous_carrier_id: u16, new_carrier_id: u16 },
    PlayerLeft(u16),
    GameOver { winner_id: u16, winner_name: Seq<char> },
    Error { code: ErrorCode, description: Seq<char> },
}

impl View for ClientNotice {
    type V = ClientNoticeModel;

    open spec fn view(&self) -> ClientNoticeModel {
        match self {
            ClientNotice::JoinAccepted { game_id, player_id } => ClientNoticeModel::JoinAccepted {
                game_id: *game_id,
                player_id: *player_id,
            },
            ClientNotice::JoinRejected(r) => ClientNoticeModel::JoinRejected(*r),
            ClientNotice::Lobby(s) => ClientNoticeModel::Lobby(*s),
            ClientNotice::Countdown(s) => ClientNoticeModel::Countdown(*s),
            ClientNotice::Started => ClientNoticeModel::Started,
            ClientNotice::Tick { tick, carrier } => ClientNoticeModel::Tick {
                tick: *tick,
                carrier: *carrier,
            },
            ClientNotice::Stale => ClientNoticeModel::Stale,
            ClientNotice::FlagPickedUp(p) => ClientNoticeModel::FlagPickedUp(*p),
            ClientNotice::FlagStolen { previous_carrier_id, new_carrier_id } =>
                ClientNoticeModel::FlagStolen {
                previous_carrier_id: *previous_carrier_id,
                new_carrier_id: *new_carrier_id,
            },
            ClientNotice::PlayerLeft(p) => ClientNoticeModel::PlayerLeft(*p),
            ClientNotice::GameOver { winner_id, winner_name } => ClientNoticeModel::GameOver {
                winner_id: *winner_id,
                winner_name: winner_name@,
            },
            ClientNotice::Error { code, description } => ClientNoticeModel::Error {
                code: *code,
                description: description@,
            },
        }
    }
}

/// The view after a server message, and the notice it yields.
pub open spec fn applied(v: ClientViewModel, m: ServerMessageModel) -> (
    ClientViewModel,
    ClientNoticeModel,
) {
    match m {
        ServerMessageModel::JoinAccepted { player_id, game_id } => (
            ClientViewModel { player_id, ..v },
            ClientNoticeModel::JoinAccepted { game_id, player_id },
        ),
        ServerMessageModel::JoinRejected { reason } => (
            ClientViewModel { connected: false, player_id: 0, ..v },
            ClientNoticeModel::JoinRejected(reason),
        ),
        ServerMessageModel::LobbyState { state, players } => (
            ClientViewModel { lobby: players, is_running: false, ..v },
            ClientNoticeModel::Lobby(state),
        ),
        ServerMessageModel::GameCountdown { seconds_remaining } => (
            v,
            ClientNoticeModel::Countdown(seconds_remaining),
        ),
        ServerMessageModel::GameStarted {
            map_size,
            circle_radius,
            flag_x,
            flag_y,
            players,
            ..
        } => (
            ClientViewModel {
                map_size,
                circle_radius,
                flag_x,
                flag_y,
                tick: 0,
                is_running: true,
                players: started_roster(players),
                ..v
            },
            ClientNoticeModel::Started,
        ),
        ServerMessageModel::GameState {
            tick,
            flag_status,
            flag_carrier_id,
            flag_x,
            flag_y,
            players,
        } => if tick >= v.tick {
            (
                ClientViewModel {
                    tick,
                    flag_x,
                    flag_y,
                    players: roster_after_state(v.players, players),
                    ..v
                },
                ClientNoticeModel::Tick {
                    tick,
                    carrier: if flag_status == FlagStatus::Carried {
                        Some(flag_carrier_id)
                    } else {
                        None
                    },
                },
            )
        } else {
            (v, ClientNoticeModel::Stale)
        },
        ServerMessageModel::FlagPickedUp { player_id, .. } => (
            v,
            ClientNoticeModel::FlagPickedUp(player_id),
        ),
        ServerMessageModel::FlagStolen { previous_carrier_id, new_carrier_id, .. } => (
            v,
            ClientNoticeModel::FlagStolen { previous_carrier_id, new_carrier_id },
        ),
        ServerMessageModel::PlayerDisconnected { player_id } => (
            ClientViewModel { players: v.players.remove(player_id), ..v },
            ClientNoticeModel::PlayerLeft(player_id),
        ),
        ServerMessageModel::GameOver { winner_id, winner_name, .. } => (
            ClientViewModel { is_running: false, ..v },
            ClientNoticeModel::GameOver { winner_id, winner_name },
        ),
        ServerMessageModel::Error { code, description } => (
            v,
            ClientNoticeModel::Error { code, description },
        ),
    }
}

/// The view after the connection is closed, by the player or the server:
/// no connection, no player id, tick 0, nobody known.
pub open spec fn cleared(v: ClientViewModel) -> ClientViewModel {
    ClientViewModel {
        connected: false,
        player_id: 0,
        tick: 0,
        lobby: Seq::empty(),
        players: Map::empty(),
        ..v
    }
}

/// Within a game the client's tick never goes back: every message but a
/// game start leaves it where it was or moves it forward.
pub proof fn lemma_tick_never_goes_back(v: ClientViewModel, m: ServerMessageModel)
    requires
        !(m is GameStarted),
    ensures
        applied(v, m).0.tick >= v.tick,
{
}

/// A new game starts the client's count afresh: right after a game start,
/// a game state is taken whatever its tick.
pub proof fn lemma_new_game_takes_any_state(
    v: ClientViewModel,
    start: ServerMessageModel,
    state: ServerMessageModel,
)
    requires
        start is GameStarted,
        state is GameState,
    ensures
        !(applied(applied(v, start).0, state).1 is Stale),
        applied(applied(v, start).0, state).0.tick == state->GameState_tick,
{
}

fn roster_from_started(players: &Vec<crate::messages::PlayerWire>) -> (r: Vec<ClientPlayer>)
    ensures
        roster_ids_distinct(r@),
        roster(r@) == started_roster(player_wires_view(players@)),
{
    let mut out: Vec<ClientPlayer> = Vec::new();
    let ghost ps = player_wires_view(players@);
    let mut i: usize = 0;
    assert(roster(out@) =~= started_roster(ps.take(0)));
    while i < players.len()
        invariant
            i <= players@.len(),
            ps == player_wires_view(players@),
            roster_ids_distinct(out@),
            roster(out@) == started_roster(ps.take(i as int)),
        decreases players.len() - i,
    {
        let entry = ClientPlayer {
            player_id: players[i].player_id,
            name: players[i].name.clone(),
            x: players[i].x,
            y: players[i].y,
            has_flag: players[i].has_flag,
        };
        set_player(&mut out, entry);
        proof {
            assert(ps.take(i + 1).drop_last() =~= ps.take(i as int));
            assert(ps.take(i + 1).last() == ps[i as int]);
        }
        i = i + 1;
    }
    assert(ps.take(players@.len() as int) =~= ps);
    out
}

fn apply_state_entries(known: &mut Vec<ClientPlayer>, entries: &Vec<PlayerStateWire>)
    requires
        roster_ids_distinct(old(known)@),
    ensures
        roster_ids_distinct(final(known)@),
        roster(final(known)@) == roster_after_state(roster(old(known)@), entries@),
{
    let ghost start = roster(known@);
    let mut i: usize = 0;
    assert(entries@.take(0) =~= Seq::<PlayerStateWire>::empty());
    while i < entries.len()
        invariant
            i <= entries@.len(),
            start == roster(old(known)@),
            roster_ids_distinct(known@),
            roster(known@) == roster_after_state(start, entries@.take(i as int)),
        decreases entries.len() - i,
    {
        let e = entries[i];
        let name = match find_client_player(known, e.player_id) {
            Some(k) => {
                proof {
                    lemma_roster_entry(known@, k as int);
                }
                known[k].name.clone()
            },
            None => placeholder_name_of(e.player_id),
        };
        let entry = ClientPlayer { player_id: e.player_id, name, x: e.x, y: e.y, has_flag: e.has_flag };
        set_player(known, entry);
        proof {
            assert(entries@.take(i + 1).drop_last() =~= entries@.take(i as int));
            assert(entries@.take(i + 1).last() == entries@[i as int]);
        }
        i = i + 1;
    }
    assert(entries@.take(entries@.len() as int) =~= entries@);
}

impl ClientView {
    pub open spec fn wf(&self) -> bool {
        roster_ids_distinct(self.players@)
    }

    /// A view before any connection, showing a map of the given size and
    /// circle until a game starts.
    pub fn new(map_size: i32, circle_radius: i32) -> (r: ClientView)
        ensures
            r.wf(),
            r@ == (ClientViewModel {
                connected: false,
                player_id: 0,
                map_size,
                circle_radius,
                flag_x: 0,
                flag_y: 0,
                tick: 0,
                lobby: Seq::empty(),
                players: Map::empty(),
                is_running: false,
            }),
    {
        let r = ClientView {
            connected: false,
            player_id: 0,
            map_size,
            circle_radius,
            flag_x: 0,
            flag_y: 0,
            tick: 0,
            lobby_players: Vec::new(),
            players: Vec::new(),
            is_running: false,
        };
        assert(lobby_players_view(r.lobby_players@) =~= Seq::<LobbyPlayerModel>::empty());
        assert(roster(r.players@) =~= Map::<u16, RosterEntry>::empty());
        r
    }

    /// Takes in a server message; see `applied`.
    pub fn apply(&mut self, message: ServerMessage) -> (r: ClientNotice)
        requires
            old(self).wf(),
        ensures
            final(self).wf(),
            (final(self)@, r@) == applied(old(self)@, message@),
    {
        match message {
            ServerMessage::JoinAccepted { player_id, game_id } => {
                self.player_id = player_id;
                ClientNotice::JoinAccepted { game_id, player_id }
            },
            ServerMessage::JoinRejected { reason } => {
                self.connected = false;
                self.player_id = 0;
                ClientNotice::JoinRejected(reason)
            },
            ServerMessage::LobbyState { state, players } => {
                self.lobby_players = players;
                self.is_running = false;
                ClientNotice::Lobby(state)
            },
            ServerMessage::GameCountdown { seconds_remaining } => ClientNotice::Countdown(
                seconds_remaining,
            ),
            ServerMessage::GameStarted { map_size, circle_radius, flag_x, flag_y, players, .. } => {
                self.map_size = map_size;
                self.circle_radius = circle_radius;
                self.flag_x = flag_x;
                self.flag_y = flag_y;
                self.tick = 0;
                self.is_running = true;
                self.players = roster_from_started(&players);
                ClientNotice::Started
            },
            ServerMessage::GameState { tick, flag_status, flag_carrier_id, flag_x, flag_y, players } => {
                if tick >= self.tick {
                    self.tick = tick;
                    self.flag_x = flag_x;
                    self.flag_y = flag_y;
                    apply_state_entries(&mut self.players, &players);
                    let carrier = if flag_status == FlagStatus::Carried {
                        Some(flag_carrier_id)
                    } else {
                        None
                    };
                    ClientNotice::Tick { tick, carrier }
                } else {
                    ClientNotice::Stale
                }
            },
            ServerMessage::FlagPickedUp { player_id, .. } => ClientNotice::FlagPickedUp(player_id),
            ServerMessage::FlagStolen { previous_carrier_id, new_carrier_id, .. } =>
                ClientNotice::FlagStolen { previous_carrier_id, new_carrier_id },
            ServerMessage::PlayerDisconnected { player_id } => {
                drop_player(&mut self.players, player_id);
                ClientNotice::PlayerLeft(player_id)
            },
            ServerMessage::GameOver { winner_id, winner_name, .. } => {
                self.is_running = false;
                ClientNotice::GameOver { winner_id, winner_name }
            },
            ServerMessage::Error { code, description } => ClientNotice::Error { code, description },
        }
    }

    /// The message that sends a direction for this player, when connected.
    pub fn input_message(&self, direction: Direction) -> (r: Option<ClientMessage>)
        ensures
            match r {
                Some(m) => self.connected && m@ == (ClientMessageModel::Input {
                    player_id: self.player_id,
                    direction,
                }),
                None => !self.connected,
            },
    {
        if self.connected {
            Some(ClientMessage::Input { player_id: self.player_id, direction })
        } else {
            None
        }
    }

    /// The message that asks to interact for this player, when connected.
    pub fn interact_message(&self) -> (r: Option<ClientMessage>)
        ensures
            match r {
                Some(m) => self.connected && m@ == (ClientMessageModel::Interact {
                    player_id: self.player_id,
                }),
                None => !self.connected,
            },
    {
        if self.connected {
            Some(ClientMessage::Interact { player_id: self.player_id })
        } else {
            None
        }
    }

    /// The player leaves: gives the leave message to send, when connected;
    /// the view is then cleared and shows no game.
    pub fn leave(&mut self) -> (r: Option<ClientMessage>)
        ensures
            final(self).wf(),
            final(self)@ == (ClientViewModel { is_running: false, ..cleared(old(self)@) }),
            match r {
                Some(m) => old(self).connected && m@ == (ClientMessageModel::Leave {
                    player_id: old(self).player_id,
                }),
                None => !old(self).connected,
            },
    {
        let message = if self.connected {
            Some(ClientMessage::Leave { player_id: self.player_id })
        } else {
            None
        };
        self.connection_lost();
        self.is_running = false;
        message
    }

    /// The server closed the connection: the view is cleared.
    pub fn connection_lost(&mut self)
        ensures
            final(self).wf(),
            final(self)@ == cleared(old(self)@),
    {
        self.connected = false;
        self.player_id = 0;
        self.tick = 0;
        self.players.clear();
        self.lobby_players.clear();
        assert(lobby_players_view(self.lobby_players@) =~= Seq::<LobbyPlayerModel>::empty());
        assert(roster(self.players@) =~= Map::<u16, RosterEntry>::empty());
    }
}

} // verus!
