//! Writing messages to bytes.
use vstd::prelude::*;
use crate::codes::{MessageType, PROTOCOL_VERSION};
use crate::messages::{
    client_message_bytes, encode_all, header, lobby_player_bytes, lobby_player_encoder,
    lobby_players_view, player_state_bytes, player_state_encoder, player_wire_bytes,
    player_wire_encoder, player_wires_view, server_message_bytes, ClientMessage, LobbyPlayer,
    PlayerStateWire, PlayerWire, ServerMessage,
};
use crate::wire::{write_bool, write_i32, write_string, write_u16, write_u32};

verus! {

/// Appends one byte.
pub fn write_u8(out: &mut Vec<u8>, value: u8)
    ensures
        final(out)@ == old(out)@ + seq![value],
{
    out.push(value);
    assert(final(out)@ =~= old(out)@ + seq![value]);
}

/// Appends the two header bytes of a message of type `t`.
fn write_header(out: &mut Vec<u8>, t: MessageType)
    ensures
        final(out)@ == old(out)@ + header(t),
{
    let ghost start = out@;
    write_u8(out, t.to_u8());
    write_u8(out, PROTOCOL_VERSION);
    assert(out@ =~= start + header(t));
}

/// The encoding of a list is the encoding of all but its last item, then
/// that of the last one.
proof fn lemma_encode_all_step<T>(s: Seq<T>, i: int, f: spec_fn(T) -> Seq<u8>)
    requires
        0 <= i < s.len(),
    ensures
        encode_all(s.take(i + 1), f) == encode_all(s.take(i), f) + f(s[i]),
{
    assert(s.take(i + 1).drop_last() =~= s.take(i));
}

fn write_lobby_players(out: &mut Vec<u8>, players: &Vec<LobbyPlayer>)
    ensures
        final(out)@ == old(out)@ + encode_all(lobby_players_view(players@), lobby_player_encoder()),
{
    let ghost start = out@;
    let ghost s = lobby_players_view(players@);
    let mut i: usize = 0;
    while i < players.len()
        invariant
            i <= players.len(),
            s == lobby_players_view(players@),
            out@ == start + encode_all(s.take(i as int), lobby_player_encoder()),
        decreases players.len() - i,
    {
        let ghost before = out@;
        write_u16(out, players[i].player_id);
        write_string(out, players[i].name.as_str());
        proof {
            lemma_encode_all_step(s, i as int, lobby_player_encoder());
            assert(out@ =~= before + lobby_player_bytes(s[i as int]));
        }
        i = i + 1;
    }
    assert(s.take(players.len() as int) =~= s);
}

fn write_player_wires(out: &mut Vec<u8>, players: &Vec<PlayerWire>)
    ensures
        final(out)@ == old(out)@ + encode_all(player_wires_view(players@), player_wire_encoder()),
{
    let ghost start = out@;
    let ghost s = player_wires_view(players@);
    let mut i: usize = 0;
    while i < players.len()
        invariant
            i <= players.len(),
            s == player_wires_view(players@),
            out@ == start + encode_all(s.take(i as int), player_wire_encoder()),
        decreases players.len() - i,
    {
        let ghost before = out@;
        let player = &players[i];
        write_u16(out, player.player_id);
        write_string(out, player.name.as_str());
        write_i32(out, player.x);
        write_i32(out, player.y);
        write_u8(out, player.direction.to_u8());
        write_bool(out, player.has_flag);
        proof {
            lemma_encode_all_step(s, i as int, player_wire_encoder());
            assert(out@ =~= before + player_wire_bytes(s[i as int]));
        }
        i = i + 1;
    }
    assert(s.take(players.len() as int) =~= s);
}

fn write_player_states(out: &mut Vec<u8>, players: &Vec<PlayerStateWire>)
    ensures
        final(out)@ == old(out)@ + encode_all(players@, player_state_encoder()),
{
    let ghost start = out@;
    let mut i: usize = 0;
    while i < players.len()
        invariant
            i <= players.len(),
            out@ == start + encode_all(players@.take(i as int), player_state_encoder()),
        decreases players.len() - i,
    {
        let ghost before = out@;
        let player = &players[i];
        write_u16(out, player.player_id);
        write_i32(out, player.x);
        write_i32(out, player.y);
        write_u8(out, player.direction.to_u8());
        write_bool(out, player.has_flag);
        proof {
            lemma_encode_all_step(players@, i as int, player_state_encoder());
            assert(out@ =~= before + player_state_bytes(players@[i as int]));
        }
        i = i + 1;
    }
    assert(players@.take(players.len() as int) =~= players@);
}

/// The bytes of a client message: header, then its fields.
pub fn encode_client_message(message: &ClientMessage) -> (r: Vec<u8>)
    ensures
        r@ == client_message_bytes(message@),
{
    let mut out: Vec<u8> = Vec::new();
    match message {
        ClientMessage::Join { name } => {
            write_header(&mut out, MessageType::Join);
            write_string(&mut out, name.as_str());
        },
        ClientMessage::Input { player_id, direction } => {
            write_header(&mut out, MessageType::Input);
            write_u16(&mut out, *player_id);
            write_u8(&mut out, direction.to_u8());
        },
        ClientMessage::Interact { player_id } => {
            write_header(&mut out, MessageType::Interact);
            write_u16(&mut out, *player_id);
        },
        ClientMessage::Leave { player_id } => {
            write_header(&mut out, MessageType::Leave);
            write_u16(&mut out, *player_id);
        },
    }
    assert(out@ =~= client_message_bytes(message@));
    out
}

/// The bytes of a server message: header, then its fields. A list longer
/// than 255 items is written whole, behind its length cut to one byte.
pub fn encode_server_message(message: &ServerMessage) -> (r: Vec<u8>)
    ensures
        r@ == server_message_bytes(message@),
{
    let mut out: Vec<u8> = Vec::new();
    match message {
        ServerMessage::JoinAccepted { player_id, game_id } => {
            write_header(&mut out, MessageType::JoinAccepted);
            write_u16(&mut out, *player_id);
            write_u16(&mut out, *game_id);
        },
        ServerMessage::JoinRejected { reason } => {
            write_header(&mut out, MessageType::JoinRejected);
            write_u8(&mut out, reason.to_u8());
        },
        ServerMessage::LobbyState { state, players } => {
            write_header(&mut out, MessageType::LobbyState);
            write_u8(&mut out, state.to_u8());
            write_u8(&mut out, players.len() as u8);
            write_lobby_players(&mut out, players);
        },
        ServerMessage::GameCountdown { seconds_remaining } => {
            write_header(&mut out, MessageType::GameCountdown);
            write_u8(&mut out, *seconds_remaining);
        },
        ServerMessage::GameStarted {
            map_size,
            circle_radius,
            player_radius,
            player_speed,
            interaction_radius,
            tick_interval_ms,
            flag_status,
            flag_carrier_id,
            flag_x,
            flag_y,
            players,
        } => {
            write_header(&mut out, MessageType::GameStarted);
            write_i32(&mut out, *map_size);
            write_i32(&mut out, *circle_radius);
            write_i32(&mut out, *player_radius);
            write_i32(&mut out, *player_speed);
            write_i32(&mut out, *interaction_radius);
            write_u16(&mut out, *tick_interval_ms);
            write_u8(&mut out, flag_status.to_u8());
            write_u16(&mut out, *flag_carrier_id);
            write_i32(&mut out, *flag_x);
            write_i32(&mut out, *flag_y);
            write_u8(&mut out, players.len() as u8);
            write_player_wires(&mut out, players);
        },
        ServerMessage::GameState {
            tick,
            flag_status,
            flag_carrier_id,
            flag_x,
            flag_y,
            players,
        } => {
            write_header(&mut out, MessageType::GameState);
            write_u32(&mut out, *tick);
            write_u8(&mut out, flag_status.to_u8());
            write_u16(&mut out, *flag_carrier_id);
            write_i32(&mut out, *flag_x);
            write_i32(&mut out, *flag_y);
            write_u8(&mut out, players.len() as u8);
            write_player_states(&mut out, players);
        },
        ServerMessage::FlagPickedUp { tick, player_id } => {
            write_header(&mut out, MessageType::FlagPickedUp);
            write_u32(&mut out, *tick);
            write_u16(&mut out, *player_id);
        },
        ServerMessage::FlagStolen { tick, previous_carrier_id, new_carrier_id } => {
            write_header(&mut out, MessageType::FlagStolen);
            write_u32(&mut out, *tick);
            write_u16(&mut out, *previous_carrier_id);
            write_u16(&mut out, *new_carrier_id);
        },
        ServerMessage::PlayerDisconnected { player_id } => {
            write_header(&mut out, MessageType::PlayerDisconnected);
            write_u16(&mut out, *player_id);
        },
        ServerMessage::GameOver { winner_id, winner_name, reason } => {
            write_header(&mut out, MessageType::GameOver);
            write_u16(&mut out, *winner_id);
            write_string(&mut out, winner_name.as_str());
            write_u8(&mut out, reason.to_u8());
        },
        ServerMessage::Error { code, description } => {
            write_header(&mut out, MessageType::Error);
            write_u8(&mut out, code.to_u8());
            write_string(&mut out, description.as_str());
        },
    }
    assert(out@ =~= server_message_bytes(message@));
    out
}

} // verus!
