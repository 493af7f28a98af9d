//! One-byte codes of the protocol: message types, game phases, flag states,
//! directions, rejection reasons, game-over reasons and error codes.
use vstd::prelude::*;

verus! {

/// Version byte carried by every message after its type byte.
pub const PROTOCOL_VERSION: u8 = 3;

/// UDP port on which servers answer discovery requests.
pub const DISCOVERY_PORT: u16 = 5001;

#[derive(Debug, Clone, Copy, PartialEq, Eq, Structural)]
pub enum MessageType {
    DiscoverRequest,
    DiscoverResponse,
    Join,
    Input,
    Interact,
    Leave,
    JoinAccepted,
    JoinRejected,
    LobbyState,
    GameCountdown,
    GameStarted,
    GameState,
    FlagPickedUp,
    FlagStolen,
    PlayerDisconnected,
    GameOver,
    Error,
}

/// The byte that stands for each message type on the wire.
pub open spec fn message_type_code(t: MessageType) -> u8 {
    match t {
        MessageType::DiscoverRequest => 0x01,
        MessageType::DiscoverResponse => 0x02,
        MessageType::Join => 0x10,
        MessageType::Input => 0x11,
        MessageType::Interact => 0x12,
        MessageType::Leave => 0x13,
        MessageType::JoinAccepted => 0x20,
        MessageType::JoinRejected => 0x21,
        MessageType::LobbyState => 0x22,
        MessageType::GameCountdown => 0x23,
        MessageType::GameStarted => 0x24,
        MessageType::GameState => 0x25,
        MessageType::FlagPickedUp => 0x26,
        MessageType::FlagStolen => 0x27,
        MessageType::PlayerDisconnected => 0x28,
        MessageType::GameOver => 0x29,
        MessageType::Error => 0x2A,
    }
}

/// The message type a byte stands for, if any.
pub open spec fn message_type_of(value: u8) -> Option<MessageType> {
    if value == 0x01 {
        Some(MessageType::DiscoverRequest)
    } else if value == 0x02 {
        Some(MessageType::DiscoverResponse)
    } else if value == 0x10 {
        Some(MessageType::Join)
    } else if value == 0x11 {
        Some(MessageType::Input)
    } else if value == 0x12 {
        Some(MessageType::Interact)
    } else if value == 0x13 {
        Some(MessageType::Leave)
    } else if value == 0x20 {
        Some(MessageType::JoinAccepted)
    } else if value == 0x21 {
        Some(MessageType::JoinRejected)
    } else if value == 0x22 {
        Some(MessageType::LobbyState)
    } else if value == 0x23 {
        Some(MessageType::GameCountdown)
    } else if value == 0x24 {
        Some(MessageType::GameStarted)
    } else if value == 0x25 {
        Some(MessageType::GameState)
    } else if value == 0x26 {
        Some(MessageType::FlagPickedUp)
    } else if value == 0x27 {
        Some(MessageType::FlagStolen)
    } else if value == 0x28 {
        Some(MessageType::PlayerDisconnected)
    } else if value == 0x29 {
        Some(MessageType::GameOver)
    } else if value == 0x2A {
        Some(MessageType::Error)
    } else {
        None
    }
}

impl MessageType {
    pub fn from_u8(value: u8) -> (r: Option<MessageType>)
        ensures
            r == message_type_of(value),
    {
        match value {
            0x01 => Some(MessageType::DiscoverRequest),
            0x02 => Some(MessageType::DiscoverResponse),
            0x10 => Some(MessageType::Join),
            0x11 => Some(MessageType::Input),
            0x12 => Some(MessageType::Interact),
            0x13 => Some(MessageType::Leave),
            0x20 => Some(MessageType::JoinAccepted),
            0x21 => Some(MessageType::JoinRejected),
            0x22 => Some(MessageType::LobbyState),
            0x23 => Some(MessageType::GameCountdown),
            0x24 => Some(MessageType::GameStarted),
            0x25 => Some(MessageType::GameState),
            0x26 => Some(MessageType::FlagPickedUp),
            0x27 => Some(MessageType::FlagStolen),
            0x28 => Some(MessageType::PlayerDisconnected),
            0x29 => Some(MessageType::GameOver),
            0x2A => Some(MessageType::Error),
            _ => None,
        }
    }

    pub fn to_u8(&self) -> (r: u8)
        ensures
            r == message_type_code(*self),
    {
        match self {
            MessageType::DiscoverRequest => 0x01,
            MessageType::DiscoverResponse => 0x02,
            MessageType::Join => 0x10,
            MessageType::Input => 0x11,
            MessageType::Interact => 0x12,
            MessageType::Leave => 0x13,
            MessageType::JoinAccepted => 0x20,
            MessageType::JoinRejected => 0x21,
            MessageType::LobbyState => 0x22,
            MessageType::GameCountdown => 0x23,
            MessageType::GameStarted => 0x24,
            MessageType::GameState => 0x25,
            MessageType::FlagPickedUp => 0x26,
            MessageType::FlagStolen => 0x27,
            MessageType::PlayerDisconnected => 0x28,
            MessageType::GameOver => 0x29,
            MessageType::Error => 0x2A,
        }
    }
}

#[derive(Debug, Clone, Copy, PartialEq, Eq, Structural)]
pub enum GamePhase {
    Waiting,
    Starting,
    Running,
    Finished,
    Cancelled,
}

pub open spec fn game_phase_code(p: GamePhase) -> u8 {
    match p {
        GamePhase::Waiting => 0x01,
        GamePhase::Starting => 0x02,
        GamePhase::Running => 0x03,
        GamePhase::Finished => 0x04,
        GamePhase::Cancelled => 0x05,
    }
}

pub open spec fn game_phase_of(value: u8) -> Option<GamePhase> {
    if value == 0x01 {
        Some(GamePhase::Waiting)
    } else if value == 0x02 {
        Some(GamePhase::Starting)
    } else if value == 0x03 {
        Some(GamePhase::Running)
    } else if value == 0x04 {
        Some(GamePhase::Finished)
    } else if value == 0x05 {
        Some(GamePhase::Cancelled)
    } else {
        None
    }
}

impl GamePhase {
    pub fn from_u8(value: u8) -> (r: Option<GamePhase>)
        ensures
            r == game_phase_of(value),
    {
        match value {
            0x01 => Some(GamePhase::Waiting),
            0x02 => Some(GamePhase::Starting),
            0x03 => Some(GamePhase::Running),
            0x04 => Some(GamePhase::Finished),
            0x05 => Some(GamePhase::Cancelled),
            _ => None,
        }
    }

    pub fn to_u8(&self) -> (r: u8)
        ensures
            r == game_phase_code(*self),
    {
        match self {
            GamePhase::Waiting => 0x01,
            GamePhase::Starting => 0x02,
            GamePhase::Running => 0x03,
            GamePhase::Finished => 0x04,
            GamePhase::Cancelled => 0x05,
        }
    }
}

#[derive(Debug, Clone, Copy, PartialEq, Eq, Structural)]
pub enum FlagStatus {
    Available,
    Carried,
    Dropped,
    Outside,
}

pub open spec fn flag_status_code(s: FlagStatus) -> u8 {
    match s {
        FlagStatus::Available => 0x01,
        FlagStatus::Carried => 0x02,
        FlagStatus::Dropped => 0x03,
        FlagStatus::Outside => 0x04,
    }
}

pub open spec fn flag_status_of(value: u8) -> Option<FlagStatus> {
    if value == 0x01 {
        Some(FlagStatus::Available)
    } else if value == 0x02 {
        Some(FlagStatus::Carried)
    } else if value == 0x03 {
        Some(FlagStatus::Dropped)
    } else if value == 0x04 {
        Some(FlagStatus::Outside)
    } else {
        None
    }
}

impl FlagStatus {
    pub fn from_u8(value: u8) -> (r: Option<FlagStatus>)
        ensures
            r == flag_status_of(value),
    {
        match value {
            0x01 => Some(FlagStatus::Available),
            0x02 => Some(FlagStatus::Carried),
            0x03 => Some(FlagStatus::Dropped),
            0x04 => Some(FlagStatus::Outside),
            _ => None,
        }
    }

    pub fn to_u8(&self) -> (r: u8)
        ensures
            r == flag_status_code(*self),
    {
        match self {
            FlagStatus::Available => 0x01,
            FlagStatus::Carried => 0x02,
            FlagStatus::Dropped => 0x03,
            FlagStatus::Outside => 0x04,
        }
    }
}

#[derive(Debug, Clone, Copy, PartialEq, Eq, Structural)]
pub enum Direction {
    Idle,
    Up,
    Down,
    Left,
    Right,
}

pub open spec fn direction_code(d: Direction) -> u8 {
    match d {
        Direction::Idle => 0x00,
        Direction::Up => 0x01,
        Direction::Down => 0x02,
        Direction::Left => 0x03,
        Direction::Right => 0x04,
    }
}

pub open spec fn direction_of(value: u8) -> Option<Direction> {
    if value == 0x00 {
        Some(Direction::Idle)
    } else if value == 0x01 {
        Some(Direction::Up)
    } else if value == 0x02 {
        Some(Direction::Down)
    } else if value == 0x03 {
        Some(Direction::Left)
    } else if value == 0x04 {
        Some(Direction::Right)
    } else {
        None
    }
}

impl Direction {
    pub fn from_u8(value: u8) -> (r: Option<Direction>)
        ensures
            r == direction_of(value),
    {
        match value {
            0x00 => Some(Direction::Idle),
            0x01 => Some(Direction::Up),
            0x02 => Some(Direction::Down),
            0x03 => Some(Direction::Left),
            0x04 => Some(Direction::Right),
            _ => None,
        }
    }

    pub fn to_u8(&self) -> (r: u8)
        ensures
            r == direction_code(*self),
    {
        match self {
            Direction::Idle => 0x00,
            Direction::Up => 0x01,
            Direction::Down => 0x02,
            Direction::Left => 0x03,
            Direction::Right => 0x04,
        }
    }
}

#[derive(Debug, Clone, Copy, PartialEq, Eq, Structural)]
pub enum JoinRejectReason {
    GameAlreadyStarted,
    GameFull,
    InvalidName,
    UnsupportedProtocolVersion,
}

pub open spec fn join_reject_reason_code(r: JoinRejectReason) -> u8 {
    match r {
        JoinRejectReason::GameAlreadyStarted => 0x01,
        JoinRejectReason::GameFull => 0x02,
        JoinRejectReason::InvalidName => 0x03,
        JoinRejectReason::UnsupportedProtocolVersion => 0x04,
    }
}

pub open spec fn join_reject_reason_of(value: u8) -> Option<JoinRejectReason> {
    if value == 0x01 {
        Some(JoinRejectReason::GameAlreadyStarted)
    } else if value == 0x02 {
        Some(JoinRejectReason::GameFull)
    } else if value == 0x03 {
        Some(JoinRejectReason::InvalidName)
    } else if value == 0x04 {
        Some(JoinRejectReason::UnsupportedProtocolVersion)
    } else {
        None
    }
}

impl JoinRejectReason {
    pub fn from_u8(value: u8) -> (r: Option<JoinRejectReason>)
        ensures
            r == join_reject_reason_of(value),
    {
        match value {
            0x01 => Some(JoinRejectReason::GameAlreadyStarted),
            0x02 => Some(JoinRejectReason::GameFull),
            0x03 => Some(JoinRejectReason::InvalidName),
            0x04 => Some(JoinRejectReason::UnsupportedProtocolVersion),
            _ => None,
        }
    }

    pub fn to_u8(&self) -> (r: u8)
        ensures
            r == join_reject_reason_code(*self),
    {
        match self {
            JoinRejectReason::GameAlreadyStarted => 0x01,
            JoinRejectReason::GameFull => 0x02,
            JoinRejectReason::InvalidName => 0x03,
            JoinRejectReason::UnsupportedProtocolVersion => 0x04,
        }
    }
}

#[derive(Debug, Clone, Copy, PartialEq, Eq, Structural)]
pub enum GameOverReason {
    ExitedCircleWithFlag,
}

pub open spec fn game_over_reason_code(r: GameOverReason) -> u8 {
    match r {
        GameOverReason::ExitedCircleWithFlag => 0x01,
    }
}

impl GameOverReason {
    pub fn to_u8(&self) -> (r: u8)
        ensures
            r == game_over_reason_code(*self),
    {
        match self {
            GameOverReason::ExitedCircleWithFlag => 0x01,
        }
    }
}

#[derive(Debug, Clone, Copy, PartialEq, Eq, Structural)]
pub enum ErrorCode {
    InvalidMessage,
    InvalidEncoding,
    InvalidInput,
    UnknownPlayer,
    GameNotStarted,
    GameAlreadyStarted,
    GameFinished,
    UnsupportedProtocolVersion,
}

pub open spec fn error_code_code(c: ErrorCode) -> u8 {
    match c {
        ErrorCode::InvalidMessage => 0x01,
        ErrorCode::InvalidEncoding => 0x02,
        ErrorCode::InvalidInput => 0x03,
        ErrorCode::UnknownPlayer => 0x04,
        ErrorCode::GameNotStarted => 0x05,
        ErrorCode::GameAlreadyStarted => 0x06,
        ErrorCode::GameFinished => 0x07,
        ErrorCode::UnsupportedProtocolVersion => 0x08,
    }
}

pub open spec fn error_code_of(value: u8) -> Option<ErrorCode> {
    if value == 0x01 {
        Some(ErrorCode::InvalidMessage)
    } else if value == 0x02 {
        Some(ErrorCode::InvalidEncoding)
    } else if value == 0x03 {
        Some(ErrorCode::InvalidInput)
    } else if value == 0x04 {
        Some(ErrorCode::UnknownPlayer)
    } else if value == 0x05 {
        Some(ErrorCode::GameNotStarted)
    } else if value == 0x06 {
        Some(ErrorCode::GameAlreadyStarted)
    } else if value == 0x07 {
        Some(ErrorCode::GameFinished)
    } else if value == 0x08 {
        Some(ErrorCode::UnsupportedProtocolVersion)
    } else {
        None
    }
}

impl ErrorCode {
    pub fn from_u8(value: u8) -> (r: Option<ErrorCode>)
        ensures
            r == error_code_of(value),
    {
        match value {
            0x01 => Some(ErrorCode::InvalidMessage),
            0x02 => Some(ErrorCode::InvalidEncoding),
            0x03 => Some(ErrorCode::InvalidInput),
            0x04 => Some(ErrorCode::UnknownPlayer),
            0x05 => Some(ErrorCode::GameNotStarted),
            0x06 => Some(ErrorCode::GameAlreadyStarted),
            0x07 => Some(ErrorCode::GameFinished),
            0x08 => Some(ErrorCode::UnsupportedProtocolVersion),
            _ => None,
        }
    }

    pub fn to_u8(&self) -> (r: u8)
        ensures
            r == error_code_code(*self),
    {
        match self {
            ErrorCode::InvalidMessage => 0x01,
            ErrorCode::InvalidEncoding => 0x02,
            ErrorCode::InvalidInput => 0x03,
            ErrorCode::UnknownPlayer => 0x04,
            ErrorCode::GameNotStarted => 0x05,
            ErrorCode::GameAlreadyStarted => 0x06,
            ErrorCode::GameFinished => 0x07,
            ErrorCode::UnsupportedProtocolVersion => 0x08,
        }
    }
}

/// Reading back the byte of a message type gives that message type, and a
/// byte that reads as a message type is that type's byte.
pub proof fn lemma_message_type_code_round_trip(t: MessageType, value: u8)
    ensures
        message_type_of(message_type_code(t)) == Some(t),
        message_type_of(value) matches Some(u) ==> message_type_code(u) == value,
{
}

/// The same two facts for game phases.
pub proof fn lemma_game_phase_code_round_trip(p: GamePhase, value: u8)
    ensures
        game_phase_of(game_phase_code(p)) == Some(p),
        game_phase_of(value) matches Some(q) ==> game_phase_code(q) == value,
{
}

/// The same two facts for flag states.
pub proof fn lemma_flag_status_code_round_trip(s: FlagStatus, value: u8)
    ensures
        flag_status_of(flag_status_code(s)) == Some(s),
        flag_status_of(value) matches Some(t) ==> flag_status_code(t) == value,
{
}

/// The same two facts for directions.
pub proof fn lemma_direction_code_round_trip(d: Direction, value: u8)
    ensures
        direction_of(direction_code(d)) == Some(d),
        direction_of(value) matches Some(e) ==> direction_code(e) == value,
{
}

/// The same two facts for join rejection reasons.
pub proof fn lemma_join_reject_reason_code_round_trip(r: JoinRejectReason, value: u8)
    ensures
        join_reject_reason_of(join_reject_reason_code(r)) == Some(r),
        join_reject_reason_of(value) matches Some(s) ==> join_reject_reason_code(s) == value,
{
}

/// The same two facts for error codes.
pub proof fn lemma_error_code_round_trip(c: ErrorCode, value: u8)
    ensures
        error_code_of(error_code_code(c)) == Some(c),
        error_code_of(value) matches Some(d) ==> error_code_code(d) == value,
{
}

} // verus!
