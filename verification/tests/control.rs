use captura_bandera::{
    connection_step, ClientMessage, ConnectionEvent, Direction, ErrorCode, GamePhase, GameSession,
    JoinRejectReason, PeerTable, ServerCommand, ServerEffect, ServerMessage,
};

fn fresh() -> (GameSession, PeerTable) {
    (GameSession::with_game_id(4321, "Servidor".to_string()), PeerTable::new())
}

fn join(g: &mut GameSession, peers: &mut PeerTable, connection_id: u64, name: &str) -> Vec<ServerEffect> {
    g.handle_command(
        peers,
        ServerCommand::Join { connection_id, name: name.to_string() },
        100,
        5,
    )
}

fn lobby_of(effect: &ServerEffect) -> (GamePhase, Vec<(u16, String)>) {
    match effect {
        ServerEffect::Broadcast(ServerMessage::LobbyState { state, players }) => {
            (*state, players.iter().map(|p| (p.player_id, p.name.clone())).collect())
        }
        other => panic!("expected a lobby broadcast, got {:?}", other),
    }
}

#[test]
fn accepted_join_registers_replies_and_broadcasts_the_lobby() {
    let (mut g, mut peers) = fresh();
    let effects = join(&mut g, &mut peers, 7, "  Ana  ");
    assert_eq!(effects.len(), 3);
    assert!(matches!(effects[0], ServerEffect::Register(1)));
    assert!(matches!(
        effects[1],
        ServerEffect::Reply(ServerMessage::JoinAccepted { player_id: 1, game_id: 4321 })
    ));
    assert_eq!(lobby_of(&effects[2]), (GamePhase::Waiting, vec![(1, "Ana".to_string())]));
    assert_eq!(g.players.len(), 1);
    assert_eq!(g.players[0].name, "Ana");
    assert!(peers.matches(7, 1));
    assert!(peers.already_joined(7));
}

#[test]
fn second_join_on_one_connection_is_an_error() {
    let (mut g, mut peers) = fresh();
    join(&mut g, &mut peers, 7, "Ana");
    let effects = join(&mut g, &mut peers, 7, "Otra");
    assert_eq!(effects.len(), 1);
    match &effects[0] {
        ServerEffect::Reply(ServerMessage::Error { code, description }) => {
            assert_eq!(*code, ErrorCode::InvalidInput);
            assert_eq!(description, "La conexion ya realizo JOIN");
        }
        other => panic!("unexpected {:?}", other),
    }
    assert_eq!(g.players.len(), 1);
}

#[test]
fn joins_are_rejected_for_bad_names_full_lobbies_and_started_games() {
    let (mut g, mut peers) = fresh();
    let effects = join(&mut g, &mut peers, 1, "   ");
    assert!(matches!(
        effects[0],
        ServerEffect::Reply(ServerMessage::JoinRejected { reason: JoinRejectReason::InvalidName })
    ));
    let effects = join(&mut g, &mut peers, 1, "abcdefghijklmnopqrstu");
    assert!(matches!(
        effects[0],
        ServerEffect::Reply(ServerMessage::JoinRejected { reason: JoinRejectReason::InvalidName })
    ));
    let effects = g.handle_command(
        &mut peers,
        ServerCommand::Join { connection_id: 2, name: "Beto".to_string() },
        0,
        5,
    );
    assert!(matches!(
        effects[0],
        ServerEffect::Reply(ServerMessage::JoinRejected { reason: JoinRejectReason::GameFull })
    ));
    join(&mut g, &mut peers, 3, "Caro");
    g.handle_command(&mut peers, ServerCommand::StartGame, 100, 5);
    let effects = join(&mut g, &mut peers, 4, "Dani");
    assert!(matches!(
        effects[0],
        ServerEffect::Reply(ServerMessage::JoinRejected {
            reason: JoinRejectReason::GameAlreadyStarted
        })
    ));
    assert_eq!(g.players.len(), 1);
}

#[test]
fn start_needs_players_and_then_starts_the_countdown() {
    let (mut g, mut peers) = fresh();
    let effects = g.handle_command(&mut peers, ServerCommand::StartGame, 100, 5);
    assert!(effects.is_empty());
    assert_eq!(g.state, GamePhase::Waiting);
    join(&mut g, &mut peers, 9, "Ana");
    let effects = g.handle_command(&mut peers, ServerCommand::StartGame, 100, 5);
    assert_eq!(effects.len(), 2);
    assert!(matches!(effects[0], ServerEffect::StartCountdown(5)));
    assert_eq!(lobby_of(&effects[1]), (GamePhase::Starting, vec![(1, "Ana".to_string())]));
    assert_eq!(g.state, GamePhase::Starting);
}

#[test]
fn ending_the_game_cancels_closes_and_resets() {
    let (mut g, mut peers) = fresh();
    join(&mut g, &mut peers, 1, "Ana");
    join(&mut g, &mut peers, 2, "Beto");
    let effects = g.handle_command(&mut peers, ServerCommand::EndGame, 100, 5);
    assert_eq!(effects.len(), 4);
    assert!(matches!(effects[0], ServerEffect::StopCountdown));
    assert_eq!(
        lobby_of(&effects[1]),
        (GamePhase::Cancelled, vec![(1, "Ana".to_string()), (2, "Beto".to_string())])
    );
    match &effects[2] {
        ServerEffect::Broadcast(ServerMessage::Error { code, description }) => {
            assert_eq!(*code, ErrorCode::GameFinished);
            assert_eq!(description, "El host finalizo la partida");
        }
        other => panic!("unexpected {:?}", other),
    }
    assert!(matches!(effects[3], ServerEffect::ShutdownAll));
    assert_eq!(g.state, GamePhase::Waiting);
    assert!(g.players.is_empty());
    assert!(!peers.already_joined(1));
    assert_eq!(g.next_player_id, 3);
}

#[test]
fn input_is_queued_only_from_the_players_connection_while_running() {
    let (mut g, mut peers) = fresh();
    join(&mut g, &mut peers, 5, "Ana");
    let input = |connection_id| ServerCommand::Input {
        connection_id,
        player_id: 1,
        direction: Direction::Left,
    };
    g.handle_command(&mut peers, input(5), 100, 5);
    assert!(g.pending_inputs.is_empty());
    g.handle_command(&mut peers, ServerCommand::StartGame, 100, 5);
    g.begin_running(&vec![(0, 0)]);
    let effects = g.handle_command(&mut peers, input(6), 100, 5);
    assert!(effects.is_empty());
    assert!(g.pending_inputs.is_empty());
    g.handle_command(&mut peers, input(5), 100, 5);
    assert_eq!(g.pending_inputs, vec![(1, Direction::Left)]);
    g.handle_command(
        &mut peers,
        ServerCommand::Interact { connection_id: 5, player_id: 1 },
        100,
        5,
    );
    assert_eq!(g.pending_interacts, vec![1]);
}

#[test]
fn leaving_removes_the_player_and_tells_everybody() {
    let (mut g, mut peers) = fresh();
    join(&mut g, &mut peers, 1, "Ana");
    join(&mut g, &mut peers, 2, "Beto");
    let effects = g.handle_command(
        &mut peers,
        ServerCommand::Leave { connection_id: 2, player_id: 1 },
        100,
        5,
    );
    assert!(effects.is_empty());
    assert_eq!(g.players.len(), 2);
    let effects = g.handle_command(
        &mut peers,
        ServerCommand::Leave { connection_id: 1, player_id: 1 },
        100,
        5,
    );
    assert_eq!(effects.len(), 3);
    assert!(matches!(effects[0], ServerEffect::Unregister(1)));
    assert!(matches!(
        effects[1],
        ServerEffect::Broadcast(ServerMessage::PlayerDisconnected { player_id: 1 })
    ));
    assert_eq!(lobby_of(&effects[2]), (GamePhase::Waiting, vec![(2, "Beto".to_string())]));
    assert!(!peers.already_joined(1));
}

#[test]
fn a_closed_connection_without_a_known_player_removes_whoever_joined_through_it() {
    let (mut g, mut peers) = fresh();
    join(&mut g, &mut peers, 1, "Ana");
    join(&mut g, &mut peers, 2, "Beto");
    let effects = g.handle_command(
        &mut peers,
        ServerCommand::ConnectionClosed { connection_id: 2, player_id: None },
        100,
        5,
    );
    assert_eq!(effects.len(), 3);
    assert!(matches!(effects[0], ServerEffect::Unregister(2)));
    assert_eq!(g.players.len(), 1);
    assert_eq!(g.players[0].player_id, 1);
    let effects = g.handle_command(
        &mut peers,
        ServerCommand::ConnectionClosed { connection_id: 9, player_id: None },
        100,
        5,
    );
    assert!(effects.is_empty());
}

#[test]
fn peer_table_insert_replace_remove() {
    let mut peers = PeerTable::new();
    peers.insert(3, 30);
    peers.insert(4, 40);
    assert!(peers.matches(30, 3));
    assert!(!peers.matches(40, 3));
    assert_eq!(peers.player_of(40), Some(4));
    peers.insert(3, 31);
    assert!(peers.matches(31, 3));
    assert_eq!(peers.player_of(30), None);
    peers.remove(4);
    assert!(!peers.already_joined(40));
    peers.clear();
    assert!(!peers.already_joined(31));
}

#[test]
fn connection_steps_bind_the_player_and_stop_on_leave_or_close() {
    let mut bound = None;
    let step = connection_step(
        8,
        &mut bound,
        ConnectionEvent::Message(ClientMessage::Join { name: "Ana".to_string() }),
    );
    assert!(!step.stop);
    assert!(matches!(&step.commands[..], [ServerCommand::Join { connection_id: 8, name }] if name == "Ana"));
    assert_eq!(bound, None);

    let step = connection_step(
        8,
        &mut bound,
        ConnectionEvent::Message(ClientMessage::Input { player_id: 3, direction: Direction::Up }),
    );
    assert_eq!(bound, Some(3));
    assert!(matches!(
        &step.commands[..],
        [ServerCommand::Input { connection_id: 8, player_id: 3, direction: Direction::Up }]
    ));

    let step = connection_step(8, &mut bound, ConnectionEvent::Undecodable);
    assert!(step.commands.is_empty());
    assert!(!step.stop);
    match step.reply {
        Some(ServerMessage::Error { code, description }) => {
            assert_eq!(code, ErrorCode::InvalidEncoding);
            assert_eq!(description, "Mensaje invalido");
        }
        other => panic!("unexpected {:?}", other),
    }

    let step = connection_step(8, &mut bound, ConnectionEvent::Closed);
    assert!(step.stop);
    assert!(matches!(
        &step.commands[..],
        [ServerCommand::ConnectionClosed { connection_id: 8, player_id: Some(3) }]
    ));

    let mut other = None;
    let step = connection_step(
        9,
        &mut other,
        ConnectionEvent::Message(ClientMessage::Leave { player_id: 4 }),
    );
    assert!(step.stop);
    assert!(matches!(
        &step.commands[..],
        [
            ServerCommand::Leave { connection_id: 9, player_id: 4 },
            ServerCommand::ConnectionClosed { connection_id: 9, player_id: Some(4) }
        ]
    ));
    assert_eq!(other, None);
}
