//! Reading messages from bytes.
use vstd::prelude::*;
use crate::codes::{
    Direction, ErrorCode, FlagStatus, GameOverReason, GamePhase, JoinRejectReason, MessageType,
    PROTOCOL_VERSION,
};
use crate::messages::{
    client_message_of, decoded_as, error_message_of, flag_picked_up_of, flag_stolen_of,
    game_countdown_of, game_over_of, game_started_of, game_state_of, join_accepted_of,
    join_rejected_of, lobby_player_reader, lobby_players_view, lobby_state_of,
    player_disconnected_of, player_state_reader, player_wire_reader, player_wires_view,
    read_dimensions_at, read_direction_at, read_flag_at, read_flag_fields_at,
    read_flag_status_at, read_header, read_lobby_player_at, read_many, read_player_state_at,
    read_player_wire_at, server_message_of, ClientMessage, LobbyPlayer, PlayerStateWire,
    PlayerWire, ServerMessage,
};
use crate::wire::{
    read_agrees, read_i32_from, read_string_from, read_u16_from, read_u32_from, read_u8_from,
    ProtocolError,
};

verus! {

/// A reading `r` with the cursor left at `cursor` agrees with the spec
/// reading `s` of the value's model.
pub open spec fn read_agrees_view<T: View>(
    r: Result<T, ProtocolError>,
    cursor: usize,
    s: Result<(T::V, int), ProtocolError>,
) -> bool {
    match s {
        Ok((m, next)) => r matches Ok(v) && v@ == m && cursor == next,
        Err(e) => r matches Err(f) && f == e,
    }
}

/// Once reading a list fails, reading a longer list fails the same way.
pub proof fn lemma_read_many_error<T>(
    b: Seq<u8>,
    pos: int,
    k: nat,
    n: nat,
    rd: spec_fn(Seq<u8>, int) -> Result<(T, int), ProtocolError>,
)
    requires
        k <= n,
        read_many(b, pos, k, rd) is Err,
    ensures
        read_many(b, pos, n, rd) == read_many(b, pos, k, rd),
    decreases n,
{
    if n > k {
        lemma_read_many_error(b, pos, k, (n - 1) as nat, rd);
    }
}

fn read_direction_from(buf: &[u8], cursor: &mut usize) -> (r: Result<Direction, ProtocolError>)
    ensures
        read_agrees(r, *final(cursor), read_direction_at(buf@, *old(cursor) as int)),
{
    match read_u8_from(buf, cursor) {
        Ok(v) => match Direction::from_u8(v) {
            Some(d) => Ok(d),
            None => Err(ProtocolError::InvalidDirection),
        },
        Err(e) => Err(e),
    }
}

fn read_flag_from(buf: &[u8], cursor: &mut usize) -> (r: Result<bool, ProtocolError>)
    ensures
        read_agrees(r, *final(cursor), read_flag_at(buf@, *old(cursor) as int)),
{
    match read_u8_from(buf, cursor) {
        Ok(v) => Ok(v != 0),
        Err(e) => Err(e),
    }
}

fn read_flag_status_from(buf: &[u8], cursor: &mut usize) -> (r: Result<FlagStatus, ProtocolError>)
    ensures
        read_agrees(r, *final(cursor), read_flag_status_at(buf@, *old(cursor) as int)),
{
    match read_u8_from(buf, cursor) {
        Ok(v) => match FlagStatus::from_u8(v) {
            Some(s) => Ok(s),
            None => Err(ProtocolError::InvalidFlagStatus),
        },
        Err(e) => Err(e),
    }
}

fn read_lobby_player_from(buf: &[u8], cursor: &mut usize) -> (r: Result<
    LobbyPlayer,
    ProtocolError,
>)
    ensures
        read_agrees_view(r, *final(cursor), read_lobby_player_at(buf@, *old(cursor) as int)),
{
    let player_id = match read_u16_from(buf, cursor) {
        Ok(v) => v,
        Err(e) => return Err(e),
    };
    let name = match read_string_from(buf, cursor) {
        Ok(v) => v,
        Err(e) => return Err(e),
    };
    Ok(LobbyPlayer { player_id, name })
}

fn read_player_wire_from(buf: &[u8], cursor: &mut usize) -> (r: Result<PlayerWire, ProtocolError>)
    ensures
        read_agrees_view(r, *final(cursor), read_player_wire_at(buf@, *old(cursor) as int)),
{
    let player_id = match read_u16_from(buf, cursor) {
        Ok(v) => v,
        Err(e) => return Err(e),
    };
    let name = match read_string_from(buf, cursor) {
        Ok(v) => v,
        Err(e) => return Err(e),
    };
    let x = match read_i32_from(buf, cursor) {
        Ok(v) => v,
        Err(e) => return Err(e),
    };
    let y = match read_i32_from(buf, cursor) {
        Ok(v) => v,
        Err(e) => return Err(e),
    };
    let direction = match read_direction_from(buf, cursor) {
        Ok(v) => v,
        Err(e) => return Err(e),
    };
    let has_flag = match read_flag_from(buf, cursor) {
        Ok(v) => v,
        Err(e) => return Err(e),
    };
    Ok(PlayerWire { player_id, name, x, y, direction, has_flag })
}

fn read_player_state_from(buf: &[u8], cursor: &mut usize) -> (r: Result<
    PlayerStateWire,
    ProtocolError,
>)
    ensures
        read_agrees(r, *final(cursor), read_player_state_at(buf@, *old(cursor) as int)),
{
    let player_id = match read_u16_from(buf, cursor) {
        Ok(v) => v,
        Err(e) => return Err(e),
    };
    let x = match read_i32_from(buf, cursor) {
        Ok(v) => v,
        Err(e) => return Err(e),
    };
    let y = match read_i32_from(buf, cursor) {
        Ok(v) => v,
        Err(e) => return Err(e),
    };
    let direction = match read_direction_from(buf, cursor) {
        Ok(v) => v,
        Err(e) => return Err(e),
    };
    let has_flag = match read_flag_from(buf, cursor) {
        Ok(v) => v,
        Err(e) => return Err(e),
    };
    Ok(PlayerStateWire { player_id, x, y, direction, has_flag })
}

fn read_lobby_players_from(buf: &[u8], cursor: &mut usize, count: u8) -> (r: Result<
    Vec<LobbyPlayer>,
    ProtocolError,
>)
    ensures
        match read_many(buf@, *old(cursor) as int, count as nat, lobby_player_reader()) {
            Ok((ms, next)) => r matches Ok(v) && lobby_players_view(v@) == ms && *final(cursor)
                == next,
            Err(e) => r matches Err(f) && f == e,
        },
{
    let ghost start = *cursor as int;
    let mut players: Vec<LobbyPlayer> = Vec::new();
    let mut i: u8 = 0;
    assert(lobby_players_view(players@) =~= Seq::<crate::messages::LobbyPlayerModel>::empty());
    while i < count
        invariant
            i <= count,
            start == *old(cursor) as int,
            read_many(buf@, start, i as nat, lobby_player_reader()) == Ok::<
                (Seq<crate::messages::LobbyPlayerModel>, int),
                ProtocolError,
            >((lobby_players_view(players@), *cursor as int)),
        decreases count - i,
    {
        let ghost before = players@;
        match read_lobby_player_from(buf, cursor) {
            Ok(p) => {
                players.push(p);
                assert(lobby_players_view(players@) =~= lobby_players_view(before).push(p@));
            },
            Err(e) => {
                proof {
                    assert(read_many(buf@, start, (i + 1) as nat, lobby_player_reader()) == Err::<
                        (Seq<crate::messages::LobbyPlayerModel>, int),
                        ProtocolError,
                    >(e));
                    lemma_read_many_error(
                        buf@,
                        start,
                        (i + 1) as nat,
                        count as nat,
                        lobby_player_reader(),
                    );
                }
                return Err(e);
            },
        }
        i = i + 1;
    }
    Ok(players)
}

fn read_player_wires_from(buf: &[u8], cursor: &mut usize, count: u8) -> (r: Result<
    Vec<PlayerWire>,
    ProtocolError,
>)
    ensures
        match read_many(buf@, *old(cursor) as int, count as nat, player_wire_reader()) {
            Ok((ms, next)) => r matches Ok(v) && player_wires_view(v@) == ms && *final(cursor)
                == next,
            Err(e) => r matches Err(f) && f == e,
        },
{
    let ghost start = *cursor as int;
    let mut players: Vec<PlayerWire> = Vec::new();
    let mut i: u8 = 0;
    assert(player_wires_view(players@) =~= Seq::<crate::messages::PlayerWireModel>::empty());
    while i < count
        invariant
            i <= count,
            start == *old(cursor) as int,
            read_many(buf@, start, i as nat, player_wire_reader()) == Ok::<
                (Seq<crate::messages::PlayerWireModel>, int),
                ProtocolError,
            >((player_wires_view(players@), *cursor as int)),
        decreases count - i,
    {
        let ghost before = players@;
        match read_player_wire_from(buf, cursor) {
            Ok(p) => {
                players.push(p);
                assert(player_wires_view(players@) =~= player_wires_view(before).push(p@));
            },
            Err(e) => {
                proof {
                    assert(read_many(buf@, start, (i + 1) as nat, player_wire_reader()) == Err::<
                        (Seq<crate::messages::PlayerWireModel>, int),
                        ProtocolError,
                    >(e));
                    lemma_read_many_error(
                        buf@,
                        start,
                        (i + 1) as nat,
                        count as nat,
                        player_wire_reader(),
                    );
                }
                return Err(e);
            },
        }
        i = i + 1;
    }
    Ok(players)
}

fn read_player_states_from(buf: &[u8], cursor: &mut usize, count: u8) -> (r: Result<
    Vec<PlayerStateWire>,
    ProtocolError,
>)
    ensures
        match read_many(buf@, *old(cursor) as int, count as nat, player_state_reader()) {
            Ok((ms, next)) => r matches Ok(v) && v@ == ms && *final(cursor) == next,
            Err(e) => r matches Err(f) && f == e,
        },
{
    let ghost start = *cursor as int;
    let mut players: Vec<PlayerStateWire> = Vec::new();
    let mut i: u8 = 0;
    assert(players@ =~= Seq::<PlayerStateWire>::empty());
    while i < count
        invariant
            i <= count,
            start == *old(cursor) as int,
            read_many(buf@, start, i as nat, player_state_reader()) == Ok::<
                (Seq<PlayerStateWire>, int),
                ProtocolError,
            >((players@, *cursor as int)),
        decreases count - i,
    {
        match read_player_state_from(buf, cursor) {
            Ok(p) => {
                players.push(p);
            },
            Err(e) => {
                proof {
                    assert(read_many(buf@, start, (i + 1) as nat, player_state_reader()) == Err::<
                        (Seq<PlayerStateWire>, int),
                        ProtocolError,
                    >(e));
                    lemma_read_many_error(
                        buf@,
                        start,
                        (i + 1) as nat,
                        count as nat,
                        player_state_reader(),
                    );
                }
                return Err(e);
            },
        }
        i = i + 1;
    }
    Ok(players)
}

/// Checks the two header bytes and gives the message type.
fn read_message_header(payload: &[u8]) -> (r: Result<MessageType, ProtocolError>)
    ensures
        r == read_header(payload@),
{
    if payload.len() < 2 {
        return Err(ProtocolError::MessageTooShort);
    }
    let message_type = match MessageType::from_u8(payload[0]) {
        Some(t) => t,
        None => return Err(ProtocolError::UnknownMessageType),
    };
    if payload[1] != PROTOCOL_VERSION {
        return Err(ProtocolError::UnsupportedProtocolVersion);
    }
    Ok(message_type)
}

/// Reads a client-to-server message. Bytes after the fields are ignored.
pub fn decode_client_message(payload: &[u8]) -> (r: Result<ClientMessage, ProtocolError>)
    ensures
        decoded_as(r, client_message_of(payload@)),
{
    let message_type = match read_message_header(payload) {
        Ok(t) => t,
        Err(e) => return Err(e),
    };
    let mut cursor: usize = 2;
    match message_type {
        MessageType::Join => match read_string_from(payload, &mut cursor) {
            Ok(name) => Ok(ClientMessage::Join { name }),
            Err(e) => Err(e),
        },
        MessageType::Input => {
            let player_id = match read_u16_from(payload, &mut cursor) {
                Ok(v) => v,
                Err(e) => return Err(e),
            };
            match read_direction_from(payload, &mut cursor) {
                Ok(direction) => Ok(ClientMessage::Input { player_id, direction }),
                Err(e) => Err(e),
            }
        },
        MessageType::Interact => match read_u16_from(payload, &mut cursor) {
            Ok(player_id) => Ok(ClientMessage::Interact { player_id }),
            Err(e) => Err(e),
        },
        MessageType::Leave => match read_u16_from(payload, &mut cursor) {
            Ok(player_id) => Ok(ClientMessage::Leave { player_id }),
            Err(e) => Err(e),
        },
        _ => Err(ProtocolError::UnexpectedClientMessage),
    }
}

fn decode_join_accepted(payload: &[u8]) -> (r: Result<ServerMessage, ProtocolError>)
    ensures
        decoded_as(r, join_accepted_of(payload@)),
{
    let mut cursor: usize = 2;
    let player_id = match read_u16_from(payload, &mut cursor) {
        Ok(v) => v,
        Err(e) => return Err(e),
    };
    let game_id = match read_u16_from(payload, &mut cursor) {
        Ok(v) => v,
        Err(e) => return Err(e),
    };
    Ok(ServerMessage::JoinAccepted { player_id, game_id })
}

fn decode_join_rejected(payload: &[u8]) -> (r: Result<ServerMessage, ProtocolError>)
    ensures
        decoded_as(r, join_rejected_of(payload@)),
{
    let mut cursor: usize = 2;
    let v = match read_u8_from(payload, &mut cursor) {
        Ok(v) => v,
        Err(e) => return Err(e),
    };
    match JoinRejectReason::from_u8(v) {
        Some(reason) => Ok(ServerMessage::JoinRejected { reason }),
        None => Err(ProtocolError::InvalidJoinRejectReason),
    }
}

fn decode_lobby_state(payload: &[u8]) -> (r: Result<ServerMessage, ProtocolError>)
    ensures
        decoded_as(r, lobby_state_of(payload@)),
{
    let mut cursor: usize = 2;
    let v = match read_u8_from(payload, &mut cursor) {
        Ok(v) => v,
        Err(e) => return Err(e),
    };
    let state = match GamePhase::from_u8(v) {
        Some(s) => s,
        None => return Err(ProtocolError::InvalidLobbyState),
    };
    let count = match read_u8_from(payload, &mut cursor) {
        Ok(v) => v,
        Err(e) => return Err(e),
    };
    match read_lobby_players_from(payload, &mut cursor, count) {
        Ok(players) => Ok(ServerMessage::LobbyState { state, players }),
        Err(e) => Err(e),
    }
}

fn decode_game_countdown(payload: &[u8]) -> (r: Result<ServerMessage, ProtocolError>)
    ensures
        decoded_as(r, game_countdown_of(payload@)),
{
    let mut cursor: usize = 2;
    match read_u8_from(payload, &mut cursor) {
        Ok(seconds_remaining) => Ok(ServerMessage::GameCountdown { seconds_remaining }),
        Err(e) => Err(e),
    }
}

fn read_dimensions_from(buf: &[u8], cursor: &mut usize) -> (r: Result<
    (i32, i32, i32, i32, i32),
    ProtocolError,
>)
    ensures
        read_agrees(r, *final(cursor), read_dimensions_at(buf@, *old(cursor) as int)),
{
    let a = match read_i32_from(buf, cursor) {
        Ok(v) => v,
        Err(e) => return Err(e),
    };
    let b = match read_i32_from(buf, cursor) {
        Ok(v) => v,
        Err(e) => return Err(e),
    };
    let c = match read_i32_from(buf, cursor) {
        Ok(v) => v,
        Err(e) => return Err(e),
    };
    let d = match read_i32_from(buf, cursor) {
        Ok(v) => v,
        Err(e) => return Err(e),
    };
    let f = match read_i32_from(buf, cursor) {
        Ok(v) => v,
        Err(e) => return Err(e),
    };
    Ok((a, b, c, d, f))
}

fn read_flag_fields_from(buf: &[u8], cursor: &mut usize) -> (r: Result<
    (FlagStatus, u16, i32, i32),
    ProtocolError,
>)
    ensures
        read_agrees(r, *final(cursor), read_flag_fields_at(buf@, *old(cursor) as int)),
{
    let status = match read_flag_status_from(buf, cursor) {
        Ok(v) => v,
        Err(e) => return Err(e),
    };
    let carrier = match read_u16_from(buf, cursor) {
        Ok(v) => v,
        Err(e) => return Err(e),
    };
    let x = match read_i32_from(buf, cursor) {
        Ok(v) => v,
        Err(e) => return Err(e),
    };
    let y = match read_i32_from(buf, cursor) {
        Ok(v) => v,
        Err(e) => return Err(e),
    };
    Ok((status, carrier, x, y))
}

fn decode_game_started(payload: &[u8]) -> (r: Result<ServerMessage, ProtocolError>)
    ensures
        decoded_as(r, game_started_of(payload@)),
{
    let mut cursor: usize = 2;
    let dims = match read_dimensions_from(payload, &mut cursor) {
        Ok(v) => v,
        Err(e) => return Err(e),
    };
    let tick_interval_ms = match read_u16_from(payload, &mut cursor) {
        Ok(v) => v,
        Err(e) => return Err(e),
    };
    let flag = match read_flag_fields_from(payload, &mut cursor) {
        Ok(v) => v,
        Err(e) => return Err(e),
    };
    let count = match read_u8_from(payload, &mut cursor) {
        Ok(v) => v,
        Err(e) => return Err(e),
    };
    match read_player_wires_from(payload, &mut cursor, count) {
        Ok(players) => Ok(
            ServerMessage::GameStarted {
                map_size: dims.0,
                circle_radius: dims.1,
                player_radius: dims.2,
                player_speed: dims.3,
                interaction_radius: dims.4,
                tick_interval_ms,
                flag_status: flag.0,
                flag_carrier_id: flag.1,
                flag_x: flag.2,
                flag_y: flag.3,
                players,
            },
        ),
        Err(e) => Err(e),
    }
}

fn decode_game_state(payload: &[u8]) -> (r: Result<ServerMessage, ProtocolError>)
    ensures
        decoded_as(r, game_state_of(payload@)),
{
    let mut cursor: usize = 2;
    let tick = match read_u32_from(payload, &mut cursor) {
        Ok(v) => v,
        Err(e) => return Err(e),
    };
    let flag = match read_flag_fields_from(payload, &mut cursor) {
        Ok(v) => v,
        Err(e) => return Err(e),
    };
    let count = match read_u8_from(payload, &mut cursor) {
        Ok(v) => v,
        Err(e) => return Err(e),
    };
    match read_player_states_from(payload, &mut cursor, count) {
        Ok(players) => Ok(
            ServerMessage::GameState {
                tick,
                flag_status: flag.0,
                flag_carrier_id: flag.1,
                flag_x: flag.2,
                flag_y: flag.3,
                players,
            },
        ),
        Err(e) => Err(e),
    }
}

fn decode_flag_picked_up(payload: &[u8]) -> (r: Result<ServerMessage, ProtocolError>)
    ensures
        decoded_as(r, flag_picked_up_of(payload@)),
{
    let mut cursor: usize = 2;
    let tick = match read_u32_from(payload, &mut cursor) {
        Ok(v) => v,
        Err(e) => return Err(e),
    };
    match read_u16_from(payload, &mut cursor) {
        Ok(player_id) => Ok(ServerMessage::FlagPickedUp { tick, player_id }),
        Err(e) => Err(e),
    }
}

fn decode_flag_stolen(payload: &[u8]) -> (r: Result<ServerMessage, ProtocolError>)
    ensures
        decoded_as(r, flag_stolen_of(payload@)),
{
    let mut cursor: usize = 2;
    let tick = match read_u32_from(payload, &mut cursor) {
        Ok(v) => v,
        Err(e) => return Err(e),
    };
    let previous_carrier_id = match read_u16_from(payload, &mut cursor) {
        Ok(v) => v,
        Err(e) => return Err(e),
    };
    match read_u16_from(payload, &mut cursor) {
        Ok(new_carrier_id) => Ok(
            ServerMessage::FlagStolen { tick, previous_carrier_id, new_carrier_id },
        ),
        Err(e) => Err(e),
    }
}

fn decode_player_disconnected(payload: &[u8]) -> (r: Result<ServerMessage, ProtocolError>)
    ensures
        decoded_as(r, player_disconnected_of(payload@)),
{
    let mut cursor: usize = 2;
    match read_u16_from(payload, &mut cursor) {
        Ok(player_id) => Ok(ServerMessage::PlayerDisconnected { player_id }),
        Err(e) => Err(e),
    }
}

fn decode_game_over(payload: &[u8]) -> (r: Result<ServerMessage, ProtocolError>)
    ensures
        decoded_as(r, game_over_of(payload@)),
{
    let mut cursor: usize = 2;
    let winner_id = match read_u16_from(payload, &mut cursor) {
        Ok(v) => v,
        Err(e) => return Err(e),
    };
    match read_string_from(payload, &mut cursor) {
        Ok(winner_name) => Ok(
            ServerMessage::GameOver {
                winner_id,
                winner_name,
                reason: GameOverReason::ExitedCircleWithFlag,
            },
        ),
        Err(e) => Err(e),
    }
}

fn decode_error_message(payload: &[u8]) -> (r: Result<ServerMessage, ProtocolError>)
    ensures
        decoded_as(r, error_message_of(payload@)),
{
    let mut cursor: usize = 2;
    let v = match read_u8_from(payload, &mut cursor) {
        Ok(v) => v,
        Err(e) => return Err(e),
    };
    let code = match ErrorCode::from_u8(v) {
        Some(c) => c,
        None => return Err(ProtocolError::InvalidErrorCode),
    };
    match read_string_from(payload, &mut cursor) {
        Ok(description) => Ok(ServerMessage::Error { code, description }),
        Err(e) => Err(e),
    }
}

/// Reads a server-to-client message. Bytes after the fields are ignored.
pub fn decode_server_message(payload: &[u8]) -> (r: Result<ServerMessage, ProtocolError>)
    ensures
        decoded_as(r, server_message_of(payload@)),
{
    let message_type = match read_message_header(payload) {
        Ok(t) => t,
        Err(e) => return Err(e),
    };
    match message_type {
        MessageType::JoinAccepted => decode_join_accepted(payload),
        MessageType::JoinRejected => decode_join_rejected(payload),
        MessageType::LobbyState => decode_lobby_state(payload),
        MessageType::GameCountdown => decode_game_countdown(payload),
        MessageType::GameStarted => decode_game_started(payload),
        MessageType::GameState => decode_game_state(payload),
        MessageType::FlagPickedUp => decode_flag_picked_up(payload),
        MessageType::FlagStolen => decode_flag_stolen(payload),
        MessageType::PlayerDisconnected => decode_player_disconnected(payload),
        MessageType::GameOver => decode_game_over(payload),
        MessageType::Error => decode_error_message(payload),
        _ => Err(ProtocolError::UnexpectedServerMessage),
    }
}

} // verus!
