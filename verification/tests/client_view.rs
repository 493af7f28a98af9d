use captura_bandera::{
    ClientMessage, ClientNotice, ClientView, Direction, ErrorCode, FlagStatus, GameOverReason,
    GamePhase, JoinRejectReason, LobbyPlayer, PlayerStateWire, PlayerWire, ServerMessage,
};

fn connected_view() -> ClientView {
    let mut v = ClientView::new(200000, 50000);
    v.connected = true;
    v
}

fn wire_player(player_id: u16, name: &str, x: i32, y: i32) -> PlayerWire {
    PlayerWire { player_id, name: name.to_string(), x, y, direction: Direction::Idle, has_flag: false }
}

fn state_entry(player_id: u16, x: i32, y: i32, has_flag: bool) -> PlayerStateWire {
    PlayerStateWire { player_id, x, y, direction: Direction::Idle, has_flag }
}

fn known(v: &ClientView) -> Vec<(u16, String, i32, i32, bool)> {
    let mut out: Vec<(u16, String, i32, i32, bool)> =
        v.players.iter().map(|p| (p.player_id, p.name.clone(), p.x, p.y, p.has_flag)).collect();
    out.sort();
    out
}

fn started_view() -> ClientView {
    let mut v = connected_view();
    v.apply(ServerMessage::GameStarted {
        map_size: 100000,
        circle_radius: 25000,
        player_radius: 1500,
        player_speed: 22000,
        interaction_radius: 6000,
        tick_interval_ms: 50,
        flag_status: FlagStatus::Available,
        flag_carrier_id: 0,
        flag_x: 0,
        flag_y: 0,
        players: vec![wire_player(1, "Ana", 10, 20), wire_player(2, "Beto", -5, 7)],
    });
    v
}

#[test]
fn new_view_shows_the_default_map_and_nobody() {
    let v = ClientView::new(200000, 50000);
    assert!(!v.connected);
    assert_eq!(v.player_id, 0);
    assert_eq!((v.map_size, v.circle_radius, v.flag_x, v.flag_y, v.tick), (200000, 50000, 0, 0, 0));
    assert!(v.players.is_empty() && v.lobby_players.is_empty());
    assert!(!v.is_running);
}

#[test]
fn join_answers_set_or_clear_the_player() {
    let mut v = connected_view();
    let n = v.apply(ServerMessage::JoinAccepted { player_id: 3, game_id: 1234 });
    assert!(matches!(n, ClientNotice::JoinAccepted { game_id: 1234, player_id: 3 }));
    assert_eq!(v.player_id, 3);
    let n = v.apply(ServerMessage::JoinRejected { reason: JoinRejectReason::GameFull });
    assert!(matches!(n, ClientNotice::JoinRejected(JoinRejectReason::GameFull)));
    assert_eq!(v.player_id, 0);
    assert!(!v.connected);
}

#[test]
fn lobby_state_replaces_the_lobby_and_stops_the_game() {
    let mut v = started_view();
    assert!(v.is_running);
    let n = v.apply(ServerMessage::LobbyState {
        state: GamePhase::Cancelled,
        players: vec![LobbyPlayer { player_id: 2, name: "Beto".to_string() }],
    });
    assert!(matches!(n, ClientNotice::Lobby(GamePhase::Cancelled)));
    assert!(!v.is_running);
    assert_eq!(v.lobby_players.len(), 1);
    assert_eq!(v.lobby_players[0].name, "Beto");
}

#[test]
fn game_started_sets_the_map_and_the_roster() {
    let v = started_view();
    assert_eq!((v.map_size, v.circle_radius, v.tick), (100000, 25000, 0));
    assert!(v.is_running);
    assert_eq!(
        known(&v),
        vec![(1, "Ana".to_string(), 10, 20, false), (2, "Beto".to_string(), -5, 7, false)]
    );
}

#[test]
fn game_started_keeps_the_last_entry_for_a_repeated_id() {
    let mut v = connected_view();
    v.apply(ServerMessage::GameStarted {
        map_size: 1,
        circle_radius: 1,
        player_radius: 1,
        player_speed: 1,
        interaction_radius: 1,
        tick_interval_ms: 50,
        flag_status: FlagStatus::Available,
        flag_carrier_id: 0,
        flag_x: 0,
        flag_y: 0,
        players: vec![wire_player(4, "Viejo", 1, 1), wire_player(4, "Nuevo", 2, 2)],
    });
    assert_eq!(known(&v), vec![(4, "Nuevo".to_string(), 2, 2, false)]);
}

#[test]
fn game_state_moves_known_players_and_names_unknown_ones() {
    let mut v = started_view();
    let n = v.apply(ServerMessage::GameState {
        tick: 4,
        flag_status: FlagStatus::Carried,
        flag_carrier_id: 2,
        flag_x: -5,
        flag_y: 8,
        players: vec![state_entry(2, -5, 8, true), state_entry(17, 1, 2, false)],
    });
    assert!(matches!(n, ClientNotice::Tick { tick: 4, carrier: Some(2) }));
    assert_eq!((v.tick, v.flag_x, v.flag_y), (4, -5, 8));
    assert_eq!(
        known(&v),
        vec![
            (1, "Ana".to_string(), 10, 20, false),
            (2, "Beto".to_string(), -5, 8, true),
            (17, "P17".to_string(), 1, 2, false),
        ]
    );
}

#[test]
fn an_older_game_state_is_ignored() {
    let mut v = started_view();
    v.apply(ServerMessage::GameState {
        tick: 9,
        flag_status: FlagStatus::Available,
        flag_carrier_id: 0,
        flag_x: 0,
        flag_y: 0,
        players: vec![],
    });
    let n = v.apply(ServerMessage::GameState {
        tick: 8,
        flag_status: FlagStatus::Dropped,
        flag_carrier_id: 0,
        flag_x: 300,
        flag_y: 300,
        players: vec![state_entry(1, 999, 999, false)],
    });
    assert!(matches!(n, ClientNotice::Stale));
    assert_eq!((v.tick, v.flag_x, v.flag_y), (9, 0, 0));
    assert_eq!(known(&v)[0], (1, "Ana".to_string(), 10, 20, false));
    let n = v.apply(ServerMessage::GameState {
        tick: 9,
        flag_status: FlagStatus::Dropped,
        flag_carrier_id: 0,
        flag_x: 1,
        flag_y: 1,
        players: vec![],
    });
    assert!(matches!(n, ClientNotice::Tick { tick: 9, carrier: None }));
}

#[test]
fn events_only_yield_notices() {
    let mut v = started_view();
    let n = v.apply(ServerMessage::GameCountdown { seconds_remaining: 3 });
    assert!(matches!(n, ClientNotice::Countdown(3)));
    let n = v.apply(ServerMessage::FlagPickedUp { tick: 2, player_id: 1 });
    assert!(matches!(n, ClientNotice::FlagPickedUp(1)));
    let n = v.apply(ServerMessage::FlagStolen { tick: 3, previous_carrier_id: 1, new_carrier_id: 2 });
    assert!(matches!(n, ClientNotice::FlagStolen { previous_carrier_id: 1, new_carrier_id: 2 }));
    let n = v.apply(ServerMessage::Error {
        code: ErrorCode::GameFinished,
        description: "fin".to_string(),
    });
    assert!(matches!(n, ClientNotice::Error { code: ErrorCode::GameFinished, ref description } if description == "fin"));
    assert!(v.is_running);
    assert_eq!(known(&v).len(), 2);
}

#[test]
fn a_disconnected_player_is_forgotten_and_game_over_stops_the_game() {
    let mut v = started_view();
    let n = v.apply(ServerMessage::PlayerDisconnected { player_id: 1 });
    assert!(matches!(n, ClientNotice::PlayerLeft(1)));
    assert_eq!(known(&v), vec![(2, "Beto".to_string(), -5, 7, false)]);
    let n = v.apply(ServerMessage::GameOver {
        winner_id: 2,
        winner_name: "Beto".to_string(),
        reason: GameOverReason::ExitedCircleWithFlag,
    });
    assert!(matches!(n, ClientNotice::GameOver { winner_id: 2, ref winner_name } if winner_name == "Beto"));
    assert!(!v.is_running);
}

#[test]
fn outgoing_messages_only_while_connected() {
    let mut v = ClientView::new(1, 1);
    assert!(v.input_message(Direction::Up).is_none());
    assert!(v.interact_message().is_none());
    assert!(v.leave().is_none());
    v.connected = true;
    v.player_id = 6;
    assert!(matches!(
        v.input_message(Direction::Down),
        Some(ClientMessage::Input { player_id: 6, direction: Direction::Down })
    ));
    assert!(matches!(v.interact_message(), Some(ClientMessage::Interact { player_id: 6 })));
}

#[test]
fn leaving_or_losing_the_connection_clears_the_view() {
    let mut v = started_view();
    v.player_id = 2;
    assert!(matches!(v.leave(), Some(ClientMessage::Leave { player_id: 2 })));
    assert!(!v.connected && !v.is_running);
    assert_eq!((v.player_id, v.tick), (0, 0));
    assert!(v.players.is_empty());

    let mut w = started_view();
    w.connection_lost();
    assert!(!w.connected);
    assert!(w.players.is_empty());
    assert!(w.is_running);
}

#[test]
fn a_second_game_is_followed_from_its_first_tick() {
    let mut v = started_view();
    v.apply(ServerMessage::GameState {
        tick: 300,
        flag_status: FlagStatus::Available,
        flag_carrier_id: 0,
        flag_x: 0,
        flag_y: 0,
        players: vec![],
    });
    v.apply(ServerMessage::GameStarted {
        map_size: 100000,
        circle_radius: 25000,
        player_radius: 1500,
        player_speed: 22000,
        interaction_radius: 6000,
        tick_interval_ms: 50,
        flag_status: FlagStatus::Available,
        flag_carrier_id: 0,
        flag_x: 0,
        flag_y: 0,
        players: vec![wire_player(1, "Ana", 0, 0)],
    });
    assert_eq!(v.tick, 0);
    let n = v.apply(ServerMessage::GameState {
        tick: 1,
        flag_status: FlagStatus::Available,
        flag_carrier_id: 0,
        flag_x: 0,
        flag_y: 0,
        players: vec![state_entry(1, 5, 5, false)],
    });
    assert!(matches!(n, ClientNotice::Tick { tick: 1, carrier: None }));
    assert_eq!(known(&v), vec![(1, "Ana".to_string(), 5, 5, false)]);
}
