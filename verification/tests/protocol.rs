use captura_bandera::wire::{read_string_from, read_u16_from, read_u8_from};
use captura_bandera::{
    decode_client_message, decode_server_message, discover_request_packet,
    encode_client_message, encode_discover_response, encode_server_message, frame_length,
    frame_payload, read_discover_packet, ClientMessage, Direction, ErrorCode, FlagStatus,
    GameOverReason, GamePhase, JoinRejectReason, LobbyPlayer, MessageType, PlayerStateWire,
    PlayerWire, ProtocolError, ServerMessage, PROTOCOL_VERSION,
};

#[test]
fn discover_response_round_trips_custom_server_name() {
    let payload = encode_discover_response(1234, "Prueba de Su", 5000, GamePhase::Waiting, 1, 100);
    let response = read_discover_packet(&payload)
        .expect("decode ok")
        .expect("Some(response)");
    assert_eq!(response.server_name, "Prueba de Su");
}

#[test]
fn discover_response_has_exact_bytes() {
    let payload = encode_discover_response(1234, "ab", 5000, GamePhase::Waiting, 1, 100);
    assert_eq!(
        payload,
        vec![0x02, 3, 0x04, 0xD2, 2, b'a', b'b', 0x13, 0x88, 0x01, 0, 1, 0, 100]
    );
    let info = read_discover_packet(&payload).unwrap().unwrap();
    assert_eq!(info.game_id, 1234);
    assert_eq!(info.tcp_port, 5000);
    assert_eq!(info.state, GamePhase::Waiting);
    assert_eq!(info.player_count, 1);
    assert_eq!(info.maximum_players, 100);
}

#[test]
fn discover_packet_edge_cases() {
    assert!(read_discover_packet(&[0x02]).unwrap().is_none());
    assert_eq!(
        read_discover_packet(&[0x77, 3]).unwrap_err(),
        ProtocolError::UnknownUdpMessageType
    );
    assert!(read_discover_packet(&[0x02, 2, 0, 0]).unwrap().is_none());
    assert!(read_discover_packet(&[0x01, 3]).unwrap().is_none());
    assert!(read_discover_packet(&[0x10, 3]).unwrap().is_none());
    assert_eq!(
        read_discover_packet(&[0x02, 3, 0]).unwrap_err(),
        ProtocolError::BufferUnderflow
    );
    let mut bad_phase = encode_discover_response(1, "x", 2, GamePhase::Waiting, 3, 4);
    bad_phase[8] = 9;
    assert_eq!(
        read_discover_packet(&bad_phase).unwrap_err(),
        ProtocolError::InvalidGamePhase
    );
}

#[test]
fn discover_request_packet_is_type_and_version() {
    assert_eq!(discover_request_packet(), vec![0x01, PROTOCOL_VERSION]);
}

#[test]
fn message_type_codes_round_trip() {
    let all = [
        MessageType::DiscoverRequest,
        MessageType::DiscoverResponse,
        MessageType::Join,
        MessageType::Input,
        MessageType::Interact,
        MessageType::Leave,
        MessageType::JoinAccepted,
        MessageType::JoinRejected,
        MessageType::LobbyState,
        MessageType::GameCountdown,
        MessageType::GameStarted,
        MessageType::GameState,
        MessageType::FlagPickedUp,
        MessageType::FlagStolen,
        MessageType::PlayerDisconnected,
        MessageType::GameOver,
        MessageType::Error,
    ];
    for t in all {
        assert_eq!(MessageType::from_u8(t.to_u8()), Some(t));
    }
    assert_eq!(MessageType::Join.to_u8(), 0x10);
    assert_eq!(MessageType::Error.to_u8(), 0x2A);
    assert_eq!(MessageType::from_u8(0x00), None);
    assert_eq!(MessageType::from_u8(0x2B), None);
}

#[test]
fn small_codes_round_trip() {
    for v in 0u8..=255 {
        if let Some(p) = GamePhase::from_u8(v) {
            assert_eq!(p.to_u8(), v);
        }
        if let Some(f) = FlagStatus::from_u8(v) {
            assert_eq!(f.to_u8(), v);
        }
        if let Some(d) = Direction::from_u8(v) {
            assert_eq!(d.to_u8(), v);
        }
        if let Some(r) = JoinRejectReason::from_u8(v) {
            assert_eq!(r.to_u8(), v);
        }
        if let Some(c) = ErrorCode::from_u8(v) {
            assert_eq!(c.to_u8(), v);
        }
    }
    assert_eq!(GamePhase::from_u8(0x05), Some(GamePhase::Cancelled));
    assert_eq!(GamePhase::from_u8(0x06), None);
    assert_eq!(FlagStatus::from_u8(0x04), Some(FlagStatus::Outside));
    assert_eq!(FlagStatus::from_u8(0x00), None);
    assert_eq!(Direction::from_u8(0x00), Some(Direction::Idle));
    assert_eq!(Direction::from_u8(0x05), None);
    assert_eq!(GameOverReason::ExitedCircleWithFlag.to_u8(), 0x01);
}

#[test]
fn client_messages_encode_exactly() {
    let join = encode_client_message(&ClientMessage::Join { name: "Ana".to_string() });
    assert_eq!(join, vec![0x10, 3, 3, b'A', b'n', b'a']);
    let input = encode_client_message(&ClientMessage::Input {
        player_id: 0x0102,
        direction: Direction::Left,
    });
    assert_eq!(input, vec![0x11, 3, 0x01, 0x02, 0x03]);
    let interact = encode_client_message(&ClientMessage::Interact { player_id: 7 });
    assert_eq!(interact, vec![0x12, 3, 0, 7]);
    let leave = encode_client_message(&ClientMessage::Leave { player_id: 65535 });
    assert_eq!(leave, vec![0x13, 3, 0xFF, 0xFF]);
}

#[test]
fn client_messages_round_trip() {
    let messages = vec![
        ClientMessage::Join { name: "Jugador ñ".to_string() },
        ClientMessage::Input { player_id: 3, direction: Direction::Up },
        ClientMessage::Interact { player_id: 4 },
        ClientMessage::Leave { player_id: 5 },
    ];
    for m in messages {
        let bytes = encode_client_message(&m);
        let back = decode_client_message(&bytes).unwrap();
        assert_eq!(format!("{:?}", back), format!("{:?}", m));
    }
}

#[test]
fn client_decoder_errors() {
    assert_eq!(decode_client_message(&[0x10]).unwrap_err(), ProtocolError::MessageTooShort);
    assert_eq!(decode_client_message(&[0x99, 3]).unwrap_err(), ProtocolError::UnknownMessageType);
    assert_eq!(
        decode_client_message(&[0x10, 2, 0]).unwrap_err(),
        ProtocolError::UnsupportedProtocolVersion
    );
    assert_eq!(
        decode_client_message(&[0x20, 3, 0, 1, 0, 2]).unwrap_err(),
        ProtocolError::UnexpectedClientMessage
    );
    assert_eq!(decode_client_message(&[0x12, 3, 0]).unwrap_err(), ProtocolError::BufferUnderflow);
    assert_eq!(
        decode_client_message(&[0x10, 3, 5, b'a']).unwrap_err(),
        ProtocolError::StringOverflow
    );
    assert_eq!(
        decode_client_message(&[0x10, 3, 2, 0xFF, 0xFE]).unwrap_err(),
        ProtocolError::InvalidUtf8
    );
    assert_eq!(
        decode_client_message(&[0x11, 3, 0, 1, 9]).unwrap_err(),
        ProtocolError::InvalidDirection
    );
}

#[test]
fn long_names_are_cut_at_255_bytes() {
    let name = "x".repeat(300);
    let bytes = encode_client_message(&ClientMessage::Join { name });
    assert_eq!(bytes.len(), 2 + 1 + 255);
    assert_eq!(bytes[2], 255);
    match decode_client_message(&bytes).unwrap() {
        ClientMessage::Join { name } => assert_eq!(name.len(), 255),
        other => panic!("unexpected {:?}", other),
    }
}

fn sample_server_messages() -> Vec<ServerMessage> {
    vec![
        ServerMessage::JoinAccepted { player_id: 1, game_id: 4321 },
        ServerMessage::JoinRejected { reason: JoinRejectReason::GameFull },
        ServerMessage::LobbyState {
            state: GamePhase::Starting,
            players: vec![
                LobbyPlayer { player_id: 1, name: "uno".to_string() },
                LobbyPlayer { player_id: 2, name: "dos".to_string() },
            ],
        },
        ServerMessage::GameCountdown { seconds_remaining: 3 },
        ServerMessage::GameStarted {
            map_size: 200000,
            circle_radius: 50000,
            player_radius: 1500,
            player_speed: 22000,
            interaction_radius: 6000,
            tick_interval_ms: 50,
            flag_status: FlagStatus::Available,
            flag_carrier_id: 0,
            flag_x: -5,
            flag_y: 7,
            players: vec![PlayerWire {
                player_id: 1,
                name: "uno".to_string(),
                x: -58000,
                y: 12,
                direction: Direction::Right,
                has_flag: false,
            }],
        },
        ServerMessage::GameState {
            tick: 70000,
            flag_status: FlagStatus::Carried,
            flag_carrier_id: 2,
            flag_x: i32::MIN,
            flag_y: i32::MAX,
            players: vec![PlayerStateWire {
                player_id: 2,
                x: -1,
                y: 1,
                direction: Direction::Down,
                has_flag: true,
            }],
        },
        ServerMessage::FlagPickedUp { tick: 9, player_id: 3 },
        ServerMessage::FlagStolen { tick: 10, previous_carrier_id: 3, new_carrier_id: 4 },
        ServerMessage::PlayerDisconnected { player_id: 4 },
        ServerMessage::GameOver {
            winner_id: 4,
            winner_name: "cuatro".to_string(),
            reason: GameOverReason::ExitedCircleWithFlag,
        },
        ServerMessage::Error { code: ErrorCode::GameFinished, description: "fin".to_string() },
    ]
}

#[test]
fn server_messages_round_trip() {
    for m in sample_server_messages() {
        let bytes = encode_server_message(&m);
        let back = decode_server_message(&bytes).unwrap();
        assert_eq!(format!("{:?}", back), format!("{:?}", m));
    }
}

#[test]
fn server_messages_encode_exactly() {
    assert_eq!(
        encode_server_message(&ServerMessage::JoinAccepted { player_id: 1, game_id: 4321 }),
        vec![0x20, 3, 0, 1, 0x10, 0xE1]
    );
    assert_eq!(
        encode_server_message(&ServerMessage::FlagStolen {
            tick: 0x01020304,
            previous_carrier_id: 3,
            new_carrier_id: 4
        }),
        vec![0x27, 3, 1, 2, 3, 4, 0, 3, 0, 4]
    );
    assert_eq!(
        encode_server_message(&ServerMessage::GameState {
            tick: 1,
            flag_status: FlagStatus::Dropped,
            flag_carrier_id: 0,
            flag_x: -1,
            flag_y: 256,
            players: vec![PlayerStateWire {
                player_id: 2,
                x: 1,
                y: -2,
                direction: Direction::Up,
                has_flag: true
            }],
        }),
        vec![
            0x25, 3, 0, 0, 0, 1, 0x03, 0, 0, 0xFF, 0xFF, 0xFF, 0xFF, 0, 0, 1, 0, 1, 0, 2, 0, 0,
            0, 1, 0xFF, 0xFF, 0xFF, 0xFE, 0x01, 1
        ]
    );
    assert_eq!(
        encode_server_message(&ServerMessage::Error {
            code: ErrorCode::InvalidEncoding,
            description: "no".to_string()
        }),
        vec![0x2A, 3, 0x02, 2, b'n', b'o']
    );
}

#[test]
fn server_decoder_errors() {
    assert_eq!(decode_server_message(&[]).unwrap_err(), ProtocolError::MessageTooShort);
    assert_eq!(decode_server_message(&[0x03, 3]).unwrap_err(), ProtocolError::UnknownMessageType);
    assert_eq!(
        decode_server_message(&[0x20, 4, 0, 1, 0, 1]).unwrap_err(),
        ProtocolError::UnsupportedProtocolVersion
    );
    assert_eq!(
        decode_server_message(&[0x10, 3, 0]).unwrap_err(),
        ProtocolError::UnexpectedServerMessage
    );
    assert_eq!(
        decode_server_message(&[0x21, 3, 9]).unwrap_err(),
        ProtocolError::InvalidJoinRejectReason
    );
    assert_eq!(
        decode_server_message(&[0x22, 3, 9, 0]).unwrap_err(),
        ProtocolError::InvalidLobbyState
    );
    assert_eq!(
        decode_server_message(&[0x22, 3, 1, 2, 0, 1, 0]).unwrap_err(),
        ProtocolError::BufferUnderflow
    );
    assert_eq!(
        decode_server_message(&[0x25, 3, 0, 0, 0, 1, 9]).unwrap_err(),
        ProtocolError::InvalidFlagStatus
    );
    assert_eq!(
        decode_server_message(&[0x2A, 3, 0x09, 0]).unwrap_err(),
        ProtocolError::InvalidErrorCode
    );
}

#[test]
fn game_over_reason_byte_is_not_read() {
    let m = decode_server_message(&[0x29, 3, 0, 4, 1, b'z']).unwrap();
    match m {
        ServerMessage::GameOver { winner_id, winner_name, reason } => {
            assert_eq!(winner_id, 4);
            assert_eq!(winner_name, "z");
            assert_eq!(reason, GameOverReason::ExitedCircleWithFlag);
        }
        other => panic!("unexpected {:?}", other),
    }
}

#[test]
fn nonzero_flag_bytes_read_as_true() {
    let m = decode_server_message(&[
        0x25, 3, 0, 0, 0, 1, 0x01, 0, 0, 0, 0, 0, 0, 0, 0, 0, 0, 1, 0, 2, 0, 0, 0, 1, 0, 0, 0,
        2, 0x00, 7,
    ])
    .unwrap();
    match m {
        ServerMessage::GameState { players, .. } => assert!(players[0].has_flag),
        other => panic!("unexpected {:?}", other),
    }
}

#[test]
fn frames_carry_length_then_payload() {
    let frame = frame_payload(&[9, 8, 7]).unwrap();
    assert_eq!(frame, vec![0, 3, 9, 8, 7]);
    assert_eq!(frame_length(frame[0], frame[1]), 3);
    let big = vec![0u8; 300];
    let frame = frame_payload(&big).unwrap();
    assert_eq!(frame_length(frame[0], frame[1]), 300);
    assert_eq!(frame.len(), 302);
    let too_big = vec![0u8; 65536];
    assert_eq!(frame_payload(&too_big).unwrap_err(), ProtocolError::MessageTooLarge);
    assert_eq!(frame_length(0xFF, 0xFF), 65535);
}

fn ends_early(e: ProtocolError) -> bool {
    e == ProtocolError::BufferUnderflow || e == ProtocolError::StringOverflow
}

#[test]
fn truncated_server_messages_are_refused() {
    for m in sample_server_messages() {
        let bytes = encode_server_message(&m);
        let last = if matches!(m, ServerMessage::GameOver { .. }) {
            bytes.len() - 1
        } else {
            bytes.len()
        };
        for k in 2..last {
            let err = decode_server_message(&bytes[..k]).unwrap_err();
            assert!(ends_early(err), "{:?} cut at {} gave {:?}", m, k, err);
        }
    }
}

#[test]
fn trailing_bytes_after_a_server_message_are_ignored() {
    for m in sample_server_messages() {
        let mut bytes = encode_server_message(&m);
        let plain = format!("{:?}", decode_server_message(&bytes).unwrap());
        bytes.extend_from_slice(&[0xFF, 0, 7]);
        assert_eq!(format!("{:?}", decode_server_message(&bytes).unwrap()), plain);
    }
    let mut join = encode_client_message(&ClientMessage::Join { name: "ana".to_string() });
    join.push(9);
    assert!(matches!(decode_client_message(&join), Ok(ClientMessage::Join { ref name }) if name == "ana"));
}

#[test]
fn truncated_discovery_responses_are_refused() {
    let payload = encode_discover_response(1234, "Prueba", 5000, GamePhase::Waiting, 1, 100);
    for k in 2..payload.len() {
        assert!(ends_early(read_discover_packet(&payload[..k]).unwrap_err()));
    }
}

#[test]
fn failed_reads_leave_the_cursor_where_the_original_does() {
    let buf = [0x00, 0x01, 0x05, b'a', b'b'];
    let mut cursor = 4;
    assert_eq!(read_u16_from(&buf, &mut cursor), Err(ProtocolError::BufferUnderflow));
    assert_eq!(cursor, 4);
    let mut cursor = 5;
    assert_eq!(read_u8_from(&buf, &mut cursor), Err(ProtocolError::BufferUnderflow));
    assert_eq!(cursor, 5);
    let mut cursor = 5;
    assert_eq!(read_string_from(&buf, &mut cursor), Err(ProtocolError::BufferUnderflow));
    assert_eq!(cursor, 5);
    let mut cursor = 2;
    assert_eq!(read_string_from(&buf, &mut cursor), Err(ProtocolError::StringOverflow));
    assert_eq!(cursor, 3);
    let bad = [0x02, 0xFF, 0xFE, 0x00];
    let mut cursor = 0;
    assert_eq!(read_string_from(&bad, &mut cursor), Err(ProtocolError::InvalidUtf8));
    assert_eq!(cursor, 3);
    let mut cursor = 0;
    assert_eq!(read_u16_from(&buf, &mut cursor), Ok(1));
    assert_eq!(cursor, 2);
}
