//! The messages of the protocol, their byte layout and their decoding.
//!
//! Every TCP message starts with its type byte and the protocol version;
//! the fields follow in a fixed order. Lists are preceded by a one-byte
//! count.
use vstd::prelude::*;
use crate::codes::{
    direction_code, direction_of, error_code_code, error_code_of, flag_status_code, flag_status_of,
    game_over_reason_code, game_phase_code, game_phase_of, join_reject_reason_code,
    join_reject_reason_of, message_type_code, message_type_of, Direction, ErrorCode, FlagStatus,
    GameOverReason, GamePhase, JoinRejectReason, MessageType, PROTOCOL_VERSION,
};
use crate::wire::{
    be16_bytes, be32_bytes, bool_byte, i32_bytes, read_i32_at, read_string_at, read_u16_at,
    read_u32_at, read_u8_at, string_bytes, ProtocolError,
};

verus! {

// ================================================================= types

#[derive(Debug, Clone)]
pub struct LobbyPlayer {
    pub player_id: u16,
    pub name: String,
}

#[derive(Debug, Clone)]
pub struct PlayerWire {
    pub player_id: u16,
    pub name: String,
    pub x: i32,
    pub y: i32,
    pub direction: Direction,
    pub has_flag: bool,
}

#[derive(Debug, Clone, Copy, PartialEq, Eq, Structural)]
pub struct PlayerStateWire {
    pub player_id: u16,
    pub x: i32,
    pub y: i32,
    pub direction: Direction,
    pub has_flag: bool,
}

#[derive(Debug, Clone)]
pub enum ClientMessage {
    Join { name: String },
    Input { player_id: u16, direction: Direction },
    Interact { player_id: u16 },
    Leave { player_id: u16 },
}

#[allow(inconsistent_fields)]
#[derive(Debug, Clone)]
pub enum ServerMessage {
    JoinAccepted { player_id: u16, game_id: u16 },
    JoinRejected { reason: JoinRejectReason },
    LobbyState { state: GamePhase, players: Vec<LobbyPlayer> },
    GameCountdown { seconds_remaining: u8 },
    GameStarted {
        map_size: i32,
        circle_radius: i32,
        player_radius: i32,
        player_speed: i32,
        interaction_radius: i32,
        tick_interval_ms: u16,
        flag_status: FlagStatus,
        flag_carrier_id: u16,
        flag_x: i32,
        flag_y: i32,
        players: Vec<PlayerWire>,
    },
    GameState {
        tick: u32,
        flag_status: FlagStatus,
        flag_carrier_id: u16,
        flag_x: i32,
        flag_y: i32,
        players: Vec<PlayerStateWire>,
    },
    FlagPickedUp { tick: u32, player_id: u16 },
    FlagStolen { tick: u32, previous_carrier_id: u16, new_carrier_id: u16 },
    PlayerDisconnected { player_id: u16 },
    GameOver { winner_id: u16, winner_name: String, reason: GameOverReason },
    Error { code: ErrorCode, description: String },
}

// ================================================================= models

/// A lobby entry with its name as characters.
pub struct LobbyPlayerModel {
    pub player_id: u16,
    pub name: Seq<char>,
}

pub struct PlayerWireModel {
    pub player_id: u16,
    pub name: Seq<char>,
    pub x: i32,
    pub y: i32,
    pub direction: Direction,
    pub has_flag: bool,
}

pub enum ClientMessageModel {
    Join { name: Seq<char> },
    Input { player_id: u16, direction: Direction },
    Interact { player_id: u16 },
    Leave { player_id: u16 },
}

#[allow(inconsistent_fields)]
pub enum ServerMessageModel {
    JoinAccepted { player_id: u16, game_id: u16 },
    JoinRejected { reason: JoinRejectReason },
    LobbyState { state: GamePhase, players: Seq<LobbyPlayerModel> },
    GameCountdown { seconds_remaining: u8 },
    GameStarted {
        map_size: i32,
        circle_radius: i32,
        player_radius: i32,
        player_speed: i32,
        interaction_radius: i32,
        tick_interval_ms: u16,
        flag_status: FlagStatus,
        flag_carrier_id: u16,
        flag_x: i32,
        flag_y: i32,
        players: Seq<PlayerWireModel>,
    },
    GameState {
        tick: u32,
        flag_status: FlagStatus,
        flag_carrier_id: u16,
        flag_x: i32,
        flag_y: i32,
        players: Seq<PlayerStateWire>,
    },
    FlagPickedUp { tick: u32, player_id: u16 },
    FlagStolen { tick: u32, previous_carrier_id: u16, new_carrier_id: u16 },
    PlayerDisconnected { player_id: u16 },
    GameOver { winner_id: u16, winner_name: Seq<char>, reason: GameOverReason },
    Error { code: ErrorCode, description: Seq<char> },
}

impl View for LobbyPlayer {
    type V = LobbyPlayerModel;

    open spec fn view(&self) -> LobbyPlayerModel {
        LobbyPlayerModel { player_id: self.player_id, name: self.name@ }
    }
}

impl View for PlayerWire {
    type V = PlayerWireModel;

    open spec fn view(&self) -> PlayerWireModel {
        PlayerWireModel {
            player_id: self.player_id,
            name: self.name@,
            x: self.x,
            y: self.y,
            direction: self.direction,
            has_flag: self.has_flag,
        }
    }
}

pub open spec fn lobby_players_view(v: Seq<LobbyPlayer>) -> Seq<LobbyPlayerModel> {
    v.map_values(|p: LobbyPlayer| p@)
}

pub open spec fn player_wires_view(v: Seq<PlayerWire>) -> Seq<PlayerWireModel> {
    v.map_values(|p: PlayerWire| p@)
}

impl View for ClientMessage {
    type V = ClientMessageModel;

    open spec fn view(&self) -> ClientMessageModel {
        match self {
            ClientMessage::Join { name } => ClientMessageModel::Join { name: name@ },
            ClientMessage::Input { player_id, direction } => ClientMessageModel::Input {
                player_id: *player_id,
                direction: *direction,
            },
            ClientMessage::Interact { player_id } => ClientMessageModel::Interact {
                player_id: *player_id,
            },
            ClientMessage::Leave { player_id } => ClientMessageModel::Leave {
                player_id: *player_id,
            },
        }
    }
}

impl View for ServerMessage {
    type V = ServerMessageModel;

    open spec fn view(&self) -> ServerMessageModel {
        match self {
            ServerMessage::JoinAccepted { player_id, game_id } => ServerMessageModel::JoinAccepted {
                player_id: *player_id,
                game_id: *game_id,
            },
            ServerMessage::JoinRejected { reason } => ServerMessageModel::JoinRejected {
                reason: *reason,
            },
            ServerMessage::LobbyState { state, players } => ServerMessageModel::LobbyState {
                state: *state,
                players: lobby_players_view(players@),
            },
            ServerMessage::GameCountdown { seconds_remaining } =>
                ServerMessageModel::GameCountdown { seconds_remaining: *seconds_remaining },
            ServerMessage::GameStarted {
                map_size,
                circle_radius,
                player_radius,
                player_speed,
                interaction_radius,
                tick_interval_ms,
                flag_status,
                flag_carrier_id,
                flag_x,
                flag_y,
                players,
            } => ServerMessageModel::GameStarted {
                map_size: *map_size,
                circle_radius: *circle_radius,
                player_radius: *player_radius,
                player_speed: *player_speed,
                interaction_radius: *interaction_radius,
                tick_interval_ms: *tick_interval_ms,
                flag_status: *flag_status,
                flag_carrier_id: *flag_carrier_id,
                flag_x: *flag_x,
                flag_y: *flag_y,
                players: player_wires_view(players@),
            },
            ServerMessage::GameState {
                tick,
                flag_status,
                flag_carrier_id,
                flag_x,
                flag_y,
                players,
            } => ServerMessageModel::GameState {
                tick: *tick,
                flag_status: *flag_status,
                flag_carrier_id: *flag_carrier_id,
                flag_x: *flag_x,
                flag_y: *flag_y,
                players: players@,
            },
            ServerMessage::FlagPickedUp { tick, player_id } => ServerMessageModel::FlagPickedUp {
                tick: *tick,
                player_id: *player_id,
            },
            ServerMessage::FlagStolen { tick, previous_carrier_id, new_carrier_id } =>
                ServerMessageModel::FlagStolen {
                tick: *tick,
                previous_carrier_id: *previous_carrier_id,
                new_carrier_id: *new_carrier_id,
            },
            ServerMessage::PlayerDisconnected { player_id } =>
                ServerMessageModel::PlayerDisconnected { player_id: *player_id },
            ServerMessage::GameOver { winner_id, winner_name, reason } =>
                ServerMessageModel::GameOver {
                winner_id: *winner_id,
                winner_name: winner_name@,
                reason: *reason,
            },
            ServerMessage::Error { code, description } => ServerMessageModel::Error {
                code: *code,
                description: description@,
            },
        }
    }
}

// ================================================================= lists

/// The encodings of the items of `s`, one after the other.
pub open spec fn encode_all<T>(s: Seq<T>, f: spec_fn(T) -> Seq<u8>) -> Seq<u8>
    decreases s.len(),
{
    if s.len() == 0 {
        seq![]
    } else {
        encode_all(s.drop_last(), f) + f(s.last())
    }
}

/// Reading `n` items one after the other from `pos` with the item reader `rd`.
pub open spec fn read_many<T>(
    b: Seq<u8>,
    pos: int,
    n: nat,
    rd: spec_fn(Seq<u8>, int) -> Result<(T, int), ProtocolError>,
) -> Result<(Seq<T>, int), ProtocolError>
    decreases n,
{
    if n == 0 {
        Ok((seq![], pos))
    } else {
        match read_many(b, pos, (n - 1) as nat, rd) {
            Ok((xs, p)) => match rd(b, p) {
                Ok((x, q)) => Ok((xs.push(x), q)),
                Err(e) => Err(e),
            },
            Err(e) => Err(e),
        }
    }
}

// ================================================================= items

pub open spec fn lobby_player_bytes(p: LobbyPlayerModel) -> Seq<u8> {
    be16_bytes(p.player_id) + string_bytes(p.name)
}

pub open spec fn player_wire_bytes(p: PlayerWireModel) -> Seq<u8> {
    be16_bytes(p.player_id) + string_bytes(p.name) + i32_bytes(p.x) + i32_bytes(p.y) + seq![
        direction_code(p.direction),
    ] + seq![bool_byte(p.has_flag)]
}

pub open spec fn player_state_bytes(p: PlayerStateWire) -> Seq<u8> {
    be16_bytes(p.player_id) + i32_bytes(p.x) + i32_bytes(p.y) + seq![direction_code(p.direction)]
        + seq![bool_byte(p.has_flag)]
}

pub open spec fn lobby_player_encoder() -> spec_fn(LobbyPlayerModel) -> Seq<u8> {
    |p: LobbyPlayerModel| lobby_player_bytes(p)
}

pub open spec fn player_wire_encoder() -> spec_fn(PlayerWireModel) -> Seq<u8> {
    |p: PlayerWireModel| player_wire_bytes(p)
}

pub open spec fn player_state_encoder() -> spec_fn(PlayerStateWire) -> Seq<u8> {
    |p: PlayerStateWire| player_state_bytes(p)
}

pub open spec fn read_direction_at(b: Seq<u8>, pos: int) -> Result<(Direction, int), ProtocolError> {
    match read_u8_at(b, pos) {
        Err(e) => Err(e),
        Ok((v, next)) => match direction_of(v) {
            Some(d) => Ok((d, next)),
            None => Err(ProtocolError::InvalidDirection),
        },
    }
}

pub open spec fn read_flag_at(b: Seq<u8>, pos: int) -> Result<(bool, int), ProtocolError> {
    match read_u8_at(b, pos) {
        Err(e) => Err(e),
        Ok((v, next)) => Ok((v != 0, next)),
    }
}

pub open spec fn read_lobby_player_at(b: Seq<u8>, pos: int) -> Result<
    (LobbyPlayerModel, int),
    ProtocolError,
> {
    match read_u16_at(b, pos) {
        Err(e) => Err(e),
        Ok((player_id, p1)) => match read_string_at(b, p1) {
            Err(e) => Err(e),
            Ok((name, p2)) => Ok((LobbyPlayerModel { player_id, name }, p2)),
        },
    }
}

pub open spec fn read_player_wire_at(b: Seq<u8>, pos: int) -> Result<
    (PlayerWireModel, int),
    ProtocolError,
> {
    match read_u16_at(b, pos) {
        Err(e) => Err(e),
        Ok((player_id, p1)) => match read_string_at(b, p1) {
            Err(e) => Err(e),
            Ok((name, p2)) => match read_i32_at(b, p2) {
                Err(e) => Err(e),
                Ok((x, p3)) => match read_i32_at(b, p3) {
                    Err(e) => Err(e),
                    Ok((y, p4)) => match read_direction_at(b, p4) {
                        Err(e) => Err(e),
                        Ok((direction, p5)) => match read_flag_at(b, p5) {
                            Err(e) => Err(e),
                            Ok((has_flag, p6)) => Ok(
                                (PlayerWireModel { player_id, name, x, y, direction, has_flag }, p6),
                            ),
                        },
                    },
                },
            },
        },
    }
}

pub open spec fn read_player_state_at(b: Seq<u8>, pos: int) -> Result<
    (PlayerStateWire, int),
    ProtocolError,
> {
    match read_u16_at(b, pos) {
        Err(e) => Err(e),
        Ok((player_id, p1)) => match read_i32_at(b, p1) {
            Err(e) => Err(e),
            Ok((x, p2)) => match read_i32_at(b, p2) {
                Err(e) => Err(e),
                Ok((y, p3)) => match read_direction_at(b, p3) {
                    Err(e) => Err(e),
                    Ok((direction, p4)) => match read_flag_at(b, p4) {
                        Err(e) => Err(e),
                        Ok((has_flag, p5)) => Ok(
                            (PlayerStateWire { player_id, x, y, direction, has_flag }, p5),
                        ),
                    },
                },
            },
        },
    }
}

pub open spec fn lobby_player_reader() -> spec_fn(Seq<u8>, int) -> Result<
    (LobbyPlayerModel, int),
    ProtocolError,
> {
    |b: Seq<u8>, pos: int| read_lobby_player_at(b, pos)
}

pub open spec fn player_wire_reader() -> spec_fn(Seq<u8>, int) -> Result<
    (PlayerWireModel, int),
    ProtocolError,
> {
    |b: Seq<u8>, pos: int| read_player_wire_at(b, pos)
}

pub open spec fn player_state_reader() -> spec_fn(Seq<u8>, int) -> Result<
    (PlayerStateWire, int),
    ProtocolError,
> {
    |b: Seq<u8>, pos: int| read_player_state_at(b, pos)
}

// ================================================================= messages

/// The two header bytes of a message of type `t`.
pub open spec fn header(t: MessageType) -> Seq<u8> {
    seq![message_type_code(t), PROTOCOL_VERSION]
}

/// The bytes that `encode_client_message` produces.
pub open spec fn client_message_bytes(m: ClientMessageModel) -> Seq<u8> {
    match m {
        ClientMessageModel::Join { name } => header(MessageType::Join) + string_bytes(name),
        ClientMessageModel::Input { player_id, direction } => header(MessageType::Input)
            + be16_bytes(player_id) + seq![direction_code(direction)],
        ClientMessageModel::Interact { player_id } => header(MessageType::Interact) + be16_bytes(
            player_id,
        ),
        ClientMessageModel::Leave { player_id } => header(MessageType::Leave) + be16_bytes(
            player_id,
        ),
    }
}

/// The bytes that `encode_server_message` produces.
pub open spec fn server_message_bytes(m: ServerMessageModel) -> Seq<u8> {
    match m {
        ServerMessageModel::JoinAccepted { player_id, game_id } => header(MessageType::JoinAccepted)
            + be16_bytes(player_id) + be16_bytes(game_id),
        ServerMessageModel::JoinRejected { reason } => header(MessageType::JoinRejected) + seq![
            join_reject_reason_code(reason),
        ],
        ServerMessageModel::LobbyState { state, players } => header(MessageType::LobbyState)
            + seq![game_phase_code(state)] + seq![players.len() as u8] + encode_all(
            players,
            lobby_player_encoder(),
        ),
        ServerMessageModel::GameCountdown { seconds_remaining } => header(
            MessageType::GameCountdown,
        ) + seq![seconds_remaining],
        ServerMessageModel::GameStarted {
            map_size,
            circle_radius,
            player_radius,
            player_speed,
            interaction_radius,
            tick_interval_ms,
            flag_status,
            flag_carrier_id,
            flag_x,
            flag_y,
            players,
        } => header(MessageType::GameStarted) + i32_bytes(map_size) + i32_bytes(circle_radius)
            + i32_bytes(player_radius) + i32_bytes(player_speed) + i32_bytes(interaction_radius)
            + be16_bytes(tick_interval_ms) + seq![flag_status_code(flag_status)] + be16_bytes(
            flag_carrier_id,
        ) + i32_bytes(flag_x) + i32_bytes(flag_y) + seq![players.len() as u8] + encode_all(
            players,
            player_wire_encoder(),
        ),
        ServerMessageModel::GameState {
            tick,
            flag_status,
            flag_carrier_id,
            flag_x,
            flag_y,
            players,
        } => header(MessageType::GameState) + be32_bytes(tick) + seq![flag_status_code(flag_status)]
            + be16_bytes(flag_carrier_id) + i32_bytes(flag_x) + i32_bytes(flag_y) + seq![
            players.len() as u8,
        ] + encode_all(players, player_state_encoder()),
        ServerMessageModel::FlagPickedUp { tick, player_id } => header(MessageType::FlagPickedUp)
            + be32_bytes(tick) + be16_bytes(player_id),
        ServerMessageModel::FlagStolen { tick, previous_carrier_id, new_carrier_id } => header(
            MessageType::FlagStolen,
        ) + be32_bytes(tick) + be16_bytes(previous_carrier_id) + be16_bytes(new_carrier_id),
        ServerMessageModel::PlayerDisconnected { player_id } => header(
            MessageType::PlayerDisconnected,
        ) + be16_bytes(player_id),
        ServerMessageModel::GameOver { winner_id, winner_name, reason } => header(
            MessageType::GameOver,
        ) + be16_bytes(winner_id) + string_bytes(winner_name) + seq![
            game_over_reason_code(reason),
        ],
        ServerMessageModel::Error { code, description } => header(MessageType::Error) + seq![
            error_code_code(code),
        ] + string_bytes(description),
    }
}

/// The header check shared by both decoders: the message type, or why the
/// header is refused.
pub open spec fn read_header(b: Seq<u8>) -> Result<MessageType, ProtocolError> {
    if b.len() < 2 {
        Err(ProtocolError::MessageTooShort)
    } else {
        match message_type_of(b[0]) {
            None => Err(ProtocolError::UnknownMessageType),
            Some(t) => if b[1] != PROTOCOL_VERSION {
                Err(ProtocolError::UnsupportedProtocolVersion)
            } else {
                Ok(t)
            },
        }
    }
}

/// What `decode_client_message` gives for the bytes `b`.
pub open spec fn client_message_of(b: Seq<u8>) -> Result<ClientMessageModel, ProtocolError> {
    match read_header(b) {
        Err(e) => Err(e),
        Ok(t) => match t {
            MessageType::Join => match read_string_at(b, 2) {
                Err(e) => Err(e),
                Ok((name, _)) => Ok(ClientMessageModel::Join { name }),
            },
            MessageType::Input => match read_u16_at(b, 2) {
                Err(e) => Err(e),
                Ok((player_id, p)) => match read_direction_at(b, p) {
                    Err(e) => Err(e),
                    Ok((direction, _)) => Ok(ClientMessageModel::Input { player_id, direction }),
                },
            },
            MessageType::Interact => match read_u16_at(b, 2) {
                Err(e) => Err(e),
                Ok((player_id, _)) => Ok(ClientMessageModel::Interact { player_id }),
            },
            MessageType::Leave => match read_u16_at(b, 2) {
                Err(e) => Err(e),
                Ok((player_id, _)) => Ok(ClientMessageModel::Leave { player_id }),
            },
            _ => Err(ProtocolError::UnexpectedClientMessage),
        },
    }
}

pub open spec fn join_accepted_of(b: Seq<u8>) -> Result<ServerMessageModel, ProtocolError> {
    match read_u16_at(b, 2) {
        Err(e) => Err(e),
        Ok((player_id, p)) => match read_u16_at(b, p) {
            Err(e) => Err(e),
            Ok((game_id, _)) => Ok(ServerMessageModel::JoinAccepted { player_id, game_id }),
        },
    }
}

pub open spec fn join_rejected_of(b: Seq<u8>) -> Result<ServerMessageModel, ProtocolError> {
    match read_u8_at(b, 2) {
        Err(e) => Err(e),
        Ok((v, _)) => match join_reject_reason_of(v) {
            Some(reason) => Ok(ServerMessageModel::JoinRejected { reason }),
            None => Err(ProtocolError::InvalidJoinRejectReason),
        },
    }
}

pub open spec fn lobby_state_of(b: Seq<u8>) -> Result<ServerMessageModel, ProtocolError> {
    match read_u8_at(b, 2) {
        Err(e) => Err(e),
        Ok((v, p)) => match game_phase_of(v) {
            None => Err(ProtocolError::InvalidLobbyState),
            Some(state) => match read_u8_at(b, p) {
                Err(e) => Err(e),
                Ok((count, q)) => match read_many(b, q, count as nat, lobby_player_reader()) {
                    Err(e) => Err(e),
                    Ok((players, _)) => Ok(ServerMessageModel::LobbyState { state, players }),
                },
            },
        },
    }
}

pub open spec fn game_countdown_of(b: Seq<u8>) -> Result<ServerMessageModel, ProtocolError> {
    match read_u8_at(b, 2) {
        Err(e) => Err(e),
        Ok((seconds_remaining, _)) => Ok(ServerMessageModel::GameCountdown { seconds_remaining }),
    }
}

pub open spec fn read_flag_status_at(b: Seq<u8>, pos: int) -> Result<
    (FlagStatus, int),
    ProtocolError,
> {
    match read_u8_at(b, pos) {
        Err(e) => Err(e),
        Ok((v, next)) => match flag_status_of(v) {
            Some(s) => Ok((s, next)),
            None => Err(ProtocolError::InvalidFlagStatus),
        },
    }
}

/// The five dimensions at the start of a game-started message.
pub open spec fn read_dimensions_at(b: Seq<u8>, pos: int) -> Result<
    ((i32, i32, i32, i32, i32), int),
    ProtocolError,
> {
    match read_i32_at(b, pos) {
        Err(e) => Err(e),
        Ok((a, p1)) => match read_i32_at(b, p1) {
            Err(e) => Err(e),
            Ok((c, p2)) => match read_i32_at(b, p2) {
                Err(e) => Err(e),
                Ok((d, p3)) => match read_i32_at(b, p3) {
                    Err(e) => Err(e),
                    Ok((f, p4)) => match read_i32_at(b, p4) {
                        Err(e) => Err(e),
                        Ok((g, p5)) => Ok(((a, c, d, f, g), p5)),
                    },
                },
            },
        },
    }
}

/// The flag fields shared by game-started and game-state messages: status,
/// carrier and position.
pub open spec fn read_flag_fields_at(b: Seq<u8>, pos: int) -> Result<
    ((FlagStatus, u16, i32, i32), int),
    ProtocolError,
> {
    match read_flag_status_at(b, pos) {
        Err(e) => Err(e),
        Ok((status, p1)) => match read_u16_at(b, p1) {
            Err(e) => Err(e),
            Ok((carrier, p2)) => match read_i32_at(b, p2) {
                Err(e) => Err(e),
                Ok((x, p3)) => match read_i32_at(b, p3) {
                    Err(e) => Err(e),
                    Ok((y, p4)) => Ok(((status, carrier, x, y), p4)),
                },
            },
        },
    }
}

pub open spec fn game_started_of(b: Seq<u8>) -> Result<ServerMessageModel, ProtocolError> {
    match read_dimensions_at(b, 2) {
        Err(e) => Err(e),
        Ok((dims, p1)) => match read_u16_at(b, p1) {
            Err(e) => Err(e),
            Ok((tick_interval_ms, p2)) => match read_flag_fields_at(b, p2) {
                Err(e) => Err(e),
                Ok((flag, p3)) => match read_u8_at(b, p3) {
                    Err(e) => Err(e),
                    Ok((count, p4)) => match read_many(b, p4, count as nat, player_wire_reader()) {
                        Err(e) => Err(e),
                        Ok((players, _)) => Ok(
                            ServerMessageModel::GameStarted {
                                map_size: dims.0,
                                circle_radius: dims.1,
                                player_radius: dims.2,
                                player_speed: dims.3,
                                interaction_radius: dims.4,
                                tick_interval_ms,
                                flag_status: flag.0,
                                flag_carrier_id: flag.1,
                                flag_x: flag.2,
                                flag_y: flag.3,
                                players,
                            },
                        ),
                    },
                },
            },
        },
    }
}

pub open spec fn game_state_of(b: Seq<u8>) -> Result<ServerMessageModel, ProtocolError> {
    match read_u32_at(b, 2) {
        Err(e) => Err(e),
        Ok((tick, p1)) => match read_flag_fields_at(b, p1) {
            Err(e) => Err(e),
            Ok((flag, p2)) => match read_u8_at(b, p2) {
                Err(e) => Err(e),
                Ok((count, p3)) => match read_many(b, p3, count as nat, player_state_reader()) {
                    Err(e) => Err(e),
                    Ok((players, _)) => Ok(
                        ServerMessageModel::GameState {
                            tick,
                            flag_status: flag.0,
                            flag_carrier_id: flag.1,
                            flag_x: flag.2,
                            flag_y: flag.3,
                            players,
                        },
                    ),
                },
            },
        },
    }
}

pub open spec fn flag_picked_up_of(b: Seq<u8>) -> Result<ServerMessageModel, ProtocolError> {
    match read_u32_at(b, 2) {
        Err(e) => Err(e),
        Ok((tick, p)) => match read_u16_at(b, p) {
            Err(e) => Err(e),
            Ok((player_id, _)) => Ok(ServerMessageModel::FlagPickedUp { tick, player_id }),
        },
    }
}

pub open spec fn flag_stolen_of(b: Seq<u8>) -> Result<ServerMessageModel, ProtocolError> {
    match read_u32_at(b, 2) {
        Err(e) => Err(e),
        Ok((tick, p1)) => match read_u16_at(b, p1) {
            Err(e) => Err(e),
            Ok((previous_carrier_id, p2)) => match read_u16_at(b, p2) {
                Err(e) => Err(e),
                Ok((new_carrier_id, _)) => Ok(
                    ServerMessageModel::FlagStolen { tick, previous_carrier_id, new_carrier_id },
                ),
            },
        },
    }
}

pub open spec fn player_disconnected_of(b: Seq<u8>) -> Result<ServerMessageModel, ProtocolError> {
    match read_u16_at(b, 2) {
        Err(e) => Err(e),
        Ok((player_id, _)) => Ok(ServerMessageModel::PlayerDisconnected { player_id }),
    }
}

/// The reason byte of a game-over message is not read: the one reason there
/// is comes back.
pub open spec fn game_over_of(b: Seq<u8>) -> Result<ServerMessageModel, ProtocolError> {
    match read_u16_at(b, 2) {
        Err(e) => Err(e),
        Ok((winner_id, p)) => match read_string_at(b, p) {
            Err(e) => Err(e),
            Ok((winner_name, _)) => Ok(
                ServerMessageModel::GameOver {
                    winner_id,
                    winner_name,
                    reason: GameOverReason::ExitedCircleWithFlag,
                },
            ),
        },
    }
}

pub open spec fn error_message_of(b: Seq<u8>) -> Result<ServerMessageModel, ProtocolError> {
    match read_u8_at(b, 2) {
        Err(e) => Err(e),
        Ok((v, p)) => match error_code_of(v) {
            None => Err(ProtocolError::InvalidErrorCode),
            Some(code) => match read_string_at(b, p) {
                Err(e) => Err(e),
                Ok((description, _)) => Ok(ServerMessageModel::Error { code, description }),
            },
        },
    }
}

/// What `decode_server_message` gives for the bytes `b`.
pub open spec fn server_message_of(b: Seq<u8>) -> Result<ServerMessageModel, ProtocolError> {
    match read_header(b) {
        Err(e) => Err(e),
        Ok(t) => match t {
            MessageType::JoinAccepted => join_accepted_of(b),
            MessageType::JoinRejected => join_rejected_of(b),
            MessageType::LobbyState => lobby_state_of(b),
            MessageType::GameCountdown => game_countdown_of(b),
            MessageType::GameStarted => game_started_of(b),
            MessageType::GameState => game_state_of(b),
            MessageType::FlagPickedUp => flag_picked_up_of(b),
            MessageType::FlagStolen => flag_stolen_of(b),
            MessageType::PlayerDisconnected => player_disconnected_of(b),
            MessageType::GameOver => game_over_of(b),
            MessageType::Error => error_message_of(b),
            _ => Err(ProtocolError::UnexpectedServerMessage),
        },
    }
}

/// A decoding result `r` agrees with the model result `s`.
pub open spec fn decoded_as<T: View>(
    r: Result<T, ProtocolError>,
    s: Result<T::V, ProtocolError>,
) -> bool {
    match s {
        Ok(m) => r matches Ok(v) && v@ == m,
        Err(e) => r matches Err(f) && f == e,
    }
}

} // verus!
