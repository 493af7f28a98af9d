use captura_bandera::{countdown_poll, tick_broadcasts};
use captura_bandera::{
    countdown_step, Direction, FlagStatus, GameSession, GamePhase, JoinDecision, JoinRejectReason,
    ServerMessage, TickEvent, ORIGIN,
};

fn lobby(names: &[&str]) -> GameSession {
    let mut g = GameSession::with_game_id(1234, "Servidor".to_string());
    for n in names {
        g.add_player(n.to_string());
    }
    g
}

fn started(names: &[&str]) -> GameSession {
    let mut g = lobby(names);
    let spawns: Vec<(u32, u32)> = (0..names.len() as u32).map(|i| (100 + i, 200 + i)).collect();
    assert!(g.start_countdown());
    g.begin_running(&spawns);
    g
}

#[test]
fn new_session_is_an_empty_waiting_lobby() {
    let g = GameSession::new("Mi servidor".to_string());
    assert!(1000 <= g.game_id && g.game_id <= 9999);
    assert_eq!(g.server_name, "Mi servidor");
    assert_eq!(g.state, GamePhase::Waiting);
    assert_eq!(g.tick, 0);
    assert!(g.players.is_empty());
    assert_eq!(g.next_player_id, 1);
    assert_eq!(g.flag.status, FlagStatus::Available);
    assert_eq!(g.flag.carrier_id, 0);
    assert_eq!(g.winner_id, None);
}

#[test]
fn players_get_increasing_ids_and_list_in_id_order() {
    let mut g = lobby(&[]);
    assert_eq!(g.add_player("a".to_string()), 1);
    assert_eq!(g.add_player("b".to_string()), 2);
    assert_eq!(g.add_player("c".to_string()), 3);
    assert!(g.remove_player(2).is_some());
    assert_eq!(g.add_player("d".to_string()), 4);
    let lobby = g.lobby_players();
    let ids: Vec<u16> = lobby.iter().map(|p| p.player_id).collect();
    let names: Vec<&str> = lobby.iter().map(|p| p.name.as_str()).collect();
    assert_eq!(ids, vec![1, 3, 4]);
    assert_eq!(names, vec!["a", "c", "d"]);
}

#[test]
fn ids_stop_at_65535_and_replace_that_player() {
    let mut g = lobby(&[]);
    g.next_player_id = 65534;
    assert_eq!(g.add_player("x".to_string()), 65534);
    assert_eq!(g.add_player("y".to_string()), 65535);
    assert_eq!(g.next_player_id, 65535);
    assert_eq!(g.add_player("z".to_string()), 65535);
    assert_eq!(g.players.len(), 2);
    assert_eq!(g.players[1].name, "z");
}

#[test]
fn removing_an_unknown_player_changes_nothing() {
    let mut g = lobby(&["a"]);
    assert!(g.remove_player(9).is_none());
    assert_eq!(g.players.len(), 1);
}

#[test]
fn removing_the_carrier_drops_the_flag_where_they_stood() {
    let mut g = started(&["a", "b"]);
    g.queue_interact(1);
    g.begin_tick();
    g.move_players(&vec![(10, 20), (30, 40)]);
    let (events, over) = g.resolve_interactions(&vec![true, false], &vec![false, false]);
    assert!(over.is_none());
    assert_eq!(events, vec![TickEvent::FlagPickedUp { tick: 1, player_id: 1 }]);
    assert_eq!(g.flag.status, FlagStatus::Carried);
    let removed = g.remove_player(1).unwrap();
    assert!(removed.has_flag);
    assert_eq!(g.flag.status, FlagStatus::Dropped);
    assert_eq!(g.flag.carrier_id, 0);
    assert_eq!((g.flag.x, g.flag.y), (10, 20));
}

#[test]
fn removing_a_player_drops_their_queued_actions() {
    let mut g = started(&["a", "b"]);
    g.queue_input(1, Direction::Up);
    g.queue_input(2, Direction::Down);
    g.queue_interact(1);
    g.queue_interact(2);
    g.remove_player(1);
    assert_eq!(g.pending_inputs, vec![(2, Direction::Down)]);
    assert_eq!(g.pending_interacts, vec![2]);
}

#[test]
fn later_input_replaces_earlier_and_interacts_are_ordered_sets() {
    let mut g = started(&["a", "b", "c"]);
    g.queue_input(2, Direction::Up);
    g.queue_input(1, Direction::Left);
    g.queue_input(2, Direction::Right);
    assert_eq!(g.pending_inputs, vec![(2, Direction::Right), (1, Direction::Left)]);
    g.queue_interact(3);
    g.queue_interact(1);
    g.queue_interact(3);
    g.queue_interact(2);
    assert_eq!(g.pending_interacts, vec![1, 2, 3]);
}

#[test]
fn countdown_needs_a_waiting_lobby_with_players() {
    let mut empty = lobby(&[]);
    assert!(!empty.start_countdown());
    assert_eq!(empty.state, GamePhase::Waiting);
    let mut g = lobby(&["a"]);
    assert!(g.start_countdown());
    assert_eq!(g.state, GamePhase::Starting);
    assert!(!g.start_countdown());
    assert_eq!(g.state, GamePhase::Starting);
}

#[test]
fn begin_running_resets_players_and_flag() {
    let mut g = lobby(&["a", "b"]);
    g.players[0].has_flag = true;
    g.players[0].direction = Direction::Up;
    g.tick = 50;
    g.begin_running(&vec![(1, 2), (3, 4)]);
    assert_eq!(g.state, GamePhase::Running);
    assert_eq!(g.tick, 0);
    assert_eq!(g.flag.status, FlagStatus::Available);
    assert_eq!((g.flag.x, g.flag.y), (ORIGIN, ORIGIN));
    assert!(!g.players[0].has_flag);
    assert_eq!(g.players[0].direction, Direction::Idle);
    assert_eq!((g.players[1].x, g.players[1].y), (3, 4));
}

#[test]
fn begin_tick_applies_the_last_queued_direction() {
    let mut g = started(&["a", "b"]);
    g.queue_input(2, Direction::Left);
    g.queue_input(2, Direction::Down);
    g.queue_input(7, Direction::Up);
    g.begin_tick();
    assert_eq!(g.tick, 1);
    assert_eq!(g.players[0].direction, Direction::Idle);
    assert_eq!(g.players[1].direction, Direction::Down);
    assert!(g.pending_inputs.is_empty());
}

#[test]
fn carried_flag_follows_its_carrier() {
    let mut g = started(&["a"]);
    g.queue_interact(1);
    g.begin_tick();
    g.move_players(&vec![(5, 6)]);
    g.resolve_interactions(&vec![true], &vec![false]);
    g.begin_tick();
    g.move_players(&vec![(7, 8)]);
    assert_eq!((g.flag.x, g.flag.y), (7, 8));
}

#[test]
fn out_of_reach_players_do_not_pick_up() {
    let mut g = started(&["a"]);
    g.queue_interact(1);
    g.begin_tick();
    let (events, _) = g.resolve_interactions(&vec![false], &vec![false]);
    assert!(events.is_empty());
    assert_eq!(g.flag.status, FlagStatus::Available);
    assert!(g.pending_interacts.is_empty());
}

#[test]
fn only_the_lowest_id_in_reach_takes_the_free_flag() {
    let mut g = started(&["a", "b", "c"]);
    g.queue_interact(3);
    g.queue_interact(2);
    g.queue_interact(1);
    g.begin_tick();
    let (events, _) = g.resolve_interactions(&vec![false, true, true], &vec![false; 3]);
    assert_eq!(events, vec![TickEvent::FlagPickedUp { tick: 1, player_id: 2 }]);
    assert!(g.players[1].has_flag);
    assert!(!g.players[2].has_flag);
    assert_eq!(g.flag.carrier_id, 2);
}

#[test]
fn a_player_in_reach_steals_the_flag_from_its_carrier() {
    let mut g = started(&["a", "b"]);
    g.queue_interact(1);
    g.begin_tick();
    g.resolve_interactions(&vec![true, false], &vec![false, false]);
    g.queue_interact(2);
    g.queue_interact(1);
    g.begin_tick();
    let (events, over) = g.resolve_interactions(&vec![true, true], &vec![false, false]);
    assert!(over.is_none());
    assert_eq!(
        events,
        vec![TickEvent::FlagStolen { tick: 2, previous_carrier_id: 1, new_carrier_id: 2 }]
    );
    assert!(!g.players[0].has_flag);
    assert!(g.players[1].has_flag);
    assert_eq!(g.flag.carrier_id, 2);
}

#[test]
fn leaving_the_circle_with_the_flag_wins() {
    let mut g = started(&["a", "b"]);
    g.queue_interact(2);
    g.begin_tick();
    g.move_players(&vec![(1, 1), (9, 9)]);
    let (events, over) = g.resolve_interactions(&vec![false, true], &vec![true, true]);
    assert_eq!(events, vec![TickEvent::FlagPickedUp { tick: 1, player_id: 2 }]);
    match over {
        Some(ServerMessage::GameOver { winner_id, winner_name, .. }) => {
            assert_eq!(winner_id, 2);
            assert_eq!(winner_name, "b");
        }
        other => panic!("unexpected {:?}", other),
    }
    assert_eq!(g.state, GamePhase::Finished);
    assert_eq!(g.flag.status, FlagStatus::Outside);
    assert_eq!(g.winner_id, Some(2));
    assert_eq!((g.flag.x, g.flag.y), (9, 9));
}

#[test]
fn standing_outside_without_the_flag_does_not_win() {
    let mut g = started(&["a"]);
    g.begin_tick();
    let (_, over) = g.resolve_interactions(&vec![false], &vec![true]);
    assert!(over.is_none());
    assert_eq!(g.state, GamePhase::Running);
}

#[test]
fn state_message_lists_players_at_given_coordinates() {
    let g = started(&["a", "b"]);
    match g.game_state_message((5, -5), &vec![(100, 200), (-300, 400)]) {
        ServerMessage::GameState { tick, flag_status, flag_x, flag_y, players, .. } => {
            assert_eq!(tick, 0);
            assert_eq!(flag_status, FlagStatus::Available);
            assert_eq!((flag_x, flag_y), (5, -5));
            assert_eq!(players.len(), 2);
            assert_eq!((players[1].player_id, players[1].x, players[1].y), (2, -300, 400));
        }
        other => panic!("unexpected {:?}", other),
    }
    match g.game_started_message(1, 2, 3, 4, 5, 50, (0, 0), &vec![(7, 8), (9, 10)]) {
        ServerMessage::GameStarted { map_size, tick_interval_ms, players, .. } => {
            assert_eq!(map_size, 1);
            assert_eq!(tick_interval_ms, 50);
            assert_eq!(players[0].name, "a");
            assert_eq!((players[0].x, players[0].y), (7, 8));
        }
        other => panic!("unexpected {:?}", other),
    }
}

#[test]
fn reset_to_waiting_empties_the_lobby() {
    let mut g = started(&["a", "b"]);
    g.queue_interact(1);
    g.queue_input(1, Direction::Up);
    g.reset_to_waiting();
    assert_eq!(g.state, GamePhase::Waiting);
    assert!(g.players.is_empty());
    assert!(g.pending_inputs.is_empty());
    assert!(g.pending_interacts.is_empty());
    assert_eq!(g.next_player_id, 3);
}

#[test]
fn join_decisions_follow_the_rules_in_order() {
    let g = lobby(&["a"]);
    assert!(matches!(g.join_decision(true, "Ana", 10), JoinDecision::AlreadyJoined));
    match g.join_decision(false, "  Ana  ", 10) {
        JoinDecision::Accepted(name) => assert_eq!(name, "Ana"),
        other => panic!("unexpected {:?}", other),
    }
    assert!(matches!(
        g.join_decision(false, "   ", 10),
        JoinDecision::Rejected(JoinRejectReason::InvalidName)
    ));
    assert!(matches!(
        g.join_decision(false, "abcdefghijklmnopqrstu", 10),
        JoinDecision::Rejected(JoinRejectReason::InvalidName)
    ));
    assert!(matches!(
        g.join_decision(false, "ñandú ñandú ñandú ña", 10),
        JoinDecision::Accepted(_)
    ));
    assert!(matches!(
        g.join_decision(false, "Ana", 1),
        JoinDecision::Rejected(JoinRejectReason::GameFull)
    ));
    let s = started(&["a"]);
    assert!(matches!(
        s.join_decision(false, "Ana", 10),
        JoinDecision::Rejected(JoinRejectReason::GameAlreadyStarted)
    ));
}

#[test]
fn countdown_announces_then_counts_down_to_the_start() {
    let step = countdown_step(5);
    assert_eq!(step.announce, 5);
    assert_eq!(step.next, Some(4));
    assert_eq!(countdown_step(1).next, None);
    assert_eq!(countdown_step(0).next, Some(0));
}

#[test]
fn discovery_reply_only_for_requests_while_waiting() {
    let g = lobby(&["a", "b"]);
    let reply = g.discovery_reply(&[0x01, 3], 5000, 100).unwrap();
    let info = captura_bandera::read_discover_packet(&reply).unwrap().unwrap();
    assert_eq!(info.game_id, 1234);
    assert_eq!(info.server_name, "Servidor");
    assert_eq!(info.player_count, 2);
    assert_eq!(info.tcp_port, 5000);
    assert!(g.discovery_reply(&[0x01, 2], 5000, 100).is_none());
    assert!(g.discovery_reply(&[0x02, 3], 5000, 100).is_none());
    assert!(g.discovery_reply(&[0x01], 5000, 100).is_none());
    let s = started(&["a"]);
    assert!(s.discovery_reply(&[0x01, 3], 5000, 100).is_none());
}

#[test]
fn flag_target_is_the_flag_or_its_carrier() {
    let mut g = started(&["a", "b"]);
    assert_eq!(g.flag_target(), Some((ORIGIN, ORIGIN)));
    g.queue_interact(2);
    g.begin_tick();
    g.move_players(&vec![(3, 4), (5, 6)]);
    g.resolve_interactions(&vec![false, true], &vec![false, false]);
    g.begin_tick();
    g.move_players(&vec![(3, 4), (50, 60)]);
    assert_eq!(g.flag_target(), Some((50, 60)));
    g.remove_player(2);
    assert_eq!(g.flag.status, FlagStatus::Dropped);
    assert_eq!(g.flag_target(), Some((50, 60)));
}

#[test]
fn no_flag_target_once_the_flag_left_the_circle() {
    let mut g = started(&["a"]);
    g.queue_interact(1);
    g.begin_tick();
    g.move_players(&vec![(9, 9)]);
    g.resolve_interactions(&vec![true], &vec![true]);
    assert_eq!(g.flag.status, FlagStatus::Outside);
    assert_eq!(g.flag_target(), None);
}

#[test]
fn tick_events_become_their_messages() {
    let m = TickEvent::FlagPickedUp { tick: 7, player_id: 3 }.message();
    assert!(matches!(m, ServerMessage::FlagPickedUp { tick: 7, player_id: 3 }));
    let m = TickEvent::FlagStolen { tick: 8, previous_carrier_id: 3, new_carrier_id: 4 }.message();
    assert!(matches!(
        m,
        ServerMessage::FlagStolen { tick: 8, previous_carrier_id: 3, new_carrier_id: 4 }
    ));
}

#[test]
fn a_countdown_runs_down_to_the_start() {
    let mut pending = None;
    let mut announced = Vec::new();
    loop {
        let step = countdown_poll(pending, 3);
        announced.push(step.announce);
        match step.next {
            None => break,
            Some(s) => pending = Some(s),
        }
    }
    assert_eq!(announced, vec![3, 2, 1]);
    assert_eq!(countdown_poll(Some(5), 3).announce, 5);
}

#[test]
fn a_tick_sends_events_then_state_then_game_over() {
    let events = vec![
        TickEvent::FlagPickedUp { tick: 4, player_id: 1 },
        TickEvent::FlagStolen { tick: 4, previous_carrier_id: 1, new_carrier_id: 2 },
    ];
    let state = ServerMessage::PlayerDisconnected { player_id: 9 };
    let over = ServerMessage::GameCountdown { seconds_remaining: 0 };
    let out = tick_broadcasts(&events, state, Some(over));
    assert_eq!(out.len(), 4);
    assert!(matches!(out[0], ServerMessage::FlagPickedUp { tick: 4, player_id: 1 }));
    assert!(matches!(out[1], ServerMessage::FlagStolen { previous_carrier_id: 1, new_carrier_id: 2, .. }));
    assert!(matches!(out[2], ServerMessage::PlayerDisconnected { player_id: 9 }));
    assert!(matches!(out[3], ServerMessage::GameCountdown { seconds_remaining: 0 }));
    let out = tick_broadcasts(&vec![], ServerMessage::PlayerDisconnected { player_id: 1 }, None);
    assert_eq!(out.len(), 1);
}

#[test]
fn many_interactions_in_one_tick_keep_the_flag_with_one_player() {
    let mut g = started(&["a", "b", "c"]);
    g.queue_interact(1);
    g.queue_interact(2);
    g.queue_interact(3);
    g.begin_tick();
    g.move_players(&vec![(1, 1), (2, 2), (3, 3)]);
    let (events, _) = g.resolve_interactions(&vec![true, true, true], &vec![false; 3]);
    assert_eq!(events.len(), 1);
    assert_eq!(g.players.iter().filter(|p| p.has_flag).count(), 1);
    assert_eq!(g.flag.status, FlagStatus::Carried);
}
