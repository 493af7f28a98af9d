//! Captura la bandera: the wire protocol (version 3, big-endian) and the
//! authoritative game rules of a capture-the-flag server, verified with Verus.

pub mod codes;
pub mod wire;
pub mod messages;
pub mod encode;
pub mod decode;
pub mod round_trip;
pub mod discovery;
pub mod framing;
pub mod game;
pub mod lobby;
pub mod control;
pub mod client_view;

pub use client_view::{ClientNotice, ClientPlayer, ClientView};
pub use codes::{
    Direction, ErrorCode, FlagStatus, GameOverReason, GamePhase, JoinRejectReason, MessageType,
    DISCOVERY_PORT, PROTOCOL_VERSION,
};
pub use control::{
    connection_step, tick_broadcasts, ConnectionEvent, ConnectionStep, Peer, PeerTable, ServerCommand, ServerEffect,
};
pub use decode::{decode_client_message, decode_server_message};
pub use discovery::{
    broadcast_targets_from, discover_request_packet, discovery_broadcast_targets,
    encode_discover_response, read_discover_packet, DiscoverInfo, ReplyFilter, InterfaceAddr, GLOBAL_BROADCAST,
};
pub use encode::{encode_client_message, encode_server_message};
pub use framing::{frame_length, frame_payload};
pub use game::{Flag, GameSession, Player, TickEvent, ORIGIN};
pub use lobby::{countdown_poll, countdown_step, CountdownStep, JoinDecision, MAX_NAME_CHARS};
pub use messages::{ClientMessage, LobbyPlayer, PlayerStateWire, PlayerWire, ServerMessage};
pub use wire::ProtocolError;
