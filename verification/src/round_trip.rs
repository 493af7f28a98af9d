//! Reading back what was written: every message whose strings fit in 255
//! bytes and whose lists hold at most 255 items decodes to itself.
use vstd::prelude::*;
use vstd::utf8::*;
use crate::codes::{
    lemma_flag_status_code_round_trip, lemma_game_phase_code_round_trip,
    lemma_message_type_code_round_trip, direction_code, error_code_code, flag_status_code, game_over_reason_code, game_phase_code,
    join_reject_reason_code, Direction, GameOverReason, MessageType,
};
use crate::discovery::{discover_packet_of, discover_response_bytes, DiscoverInfoModel};
use crate::messages::{
    client_message_bytes, client_message_of, encode_all, header, lobby_player_bytes,
    lobby_player_encoder, lobby_player_reader, player_state_bytes, player_state_encoder,
    player_state_reader, player_wire_bytes, player_wire_encoder, player_wire_reader,
    read_direction_at, read_flag_at, read_lobby_player_at, read_many, read_player_state_at,
    read_player_wire_at, read_header, server_message_bytes, join_accepted_of, join_rejected_of,
    lobby_state_of, game_countdown_of, game_started_of, game_state_of, flag_picked_up_of,
    flag_stolen_of, player_disconnected_of, game_over_of, error_message_of, server_message_of, ClientMessageModel,
    LobbyPlayerModel, PlayerStateWire, PlayerWireModel, ServerMessageModel,
};
use crate::wire::{
    be16_bytes, be32_bytes, bool_byte, fits_wire, i32_bytes, read_i32_at, read_string_at,
    read_u16_at, read_u32_at, read_u8_at, string_bytes, wire_string_len, ProtocolError,
    group_wire_lengths, be16_value,
};

verus! {

broadcast use encode_utf8_valid_utf8, encode_utf8_decode_utf8, group_wire_lengths;

/// The bytes `e` stand in `b` from position `pos` on.
pub open spec fn at(b: Seq<u8>, pos: int, e: Seq<u8>) -> bool {
    &&& 0 <= pos
    &&& pos + e.len() <= b.len()
    &&& b.subrange(pos, pos + e.len()) == e
}

proof fn lemma_at_split(b: Seq<u8>, pos: int, e1: Seq<u8>, e2: Seq<u8>)
    requires
        at(b, pos, e1 + e2),
    ensures
        at(b, pos, e1),
        at(b, pos + e1.len(), e2),
{
    let w = b.subrange(pos, pos + e1.len() + e2.len());
    assert(w == e1 + e2);
    assert forall|i: int| 0 <= i < e1.len() implies b.subrange(pos, pos + e1.len())[i] == e1[i] by {
        assert(w[i] == (e1 + e2)[i]);
    }
    assert(b.subrange(pos, pos + e1.len()) =~= e1);
    assert forall|i: int| 0 <= i < e2.len() implies b.subrange(
        pos + e1.len(),
        pos + e1.len() + e2.len(),
    )[i] == e2[i] by {
        assert(w[e1.len() + i] == (e1 + e2)[e1.len() + i]);
    }
    assert(b.subrange(pos + e1.len(), pos + e1.len() + e2.len()) =~= e2);
}

proof fn lemma_at_whole(b: Seq<u8>)
    ensures
        at(b, 0, b),
{
    assert(b.subrange(0, b.len() as int) =~= b);
}

proof fn lemma_read_u8(b: Seq<u8>, pos: int, v: u8)
    requires
        at(b, pos, seq![v]),
    ensures
        read_u8_at(b, pos) == Ok::<(u8, int), ProtocolError>((v, pos + 1)),
{
    assert(b[pos] == b.subrange(pos, pos + 1)[0]);
}

proof fn lemma_read_u16(b: Seq<u8>, pos: int, v: u16)
    requires
        at(b, pos, be16_bytes(v)),
    ensures
        read_u16_at(b, pos) == Ok::<(u16, int), ProtocolError>((v, pos + 2)),
{
    reveal(read_u16_at);
    reveal(be16_bytes);
    assert(b[pos] == b.subrange(pos, pos + 2)[0]);
    assert(b[pos + 1] == b.subrange(pos, pos + 2)[1]);
}

proof fn lemma_be32(v: u32)
    ensures
        (v / 0x100_0000) as u8 * 0x100_0000 + ((v / 0x1_0000) % 256) as u8 * 0x1_0000 + ((v / 256)
            % 256) as u8 * 256 + (v % 256) as u8 == v,
{
    assert((v / 0x100_0000) as u8 * 0x100_0000 + ((v / 0x1_0000) % 256) as u8 * 0x1_0000 + ((v
        / 256) % 256) as u8 * 256 + (v % 256) as u8 == v) by (bit_vector);
}

proof fn lemma_read_u32(b: Seq<u8>, pos: int, v: u32)
    requires
        at(b, pos, be32_bytes(v)),
    ensures
        read_u32_at(b, pos) == Ok::<(u32, int), ProtocolError>((v, pos + 4)),
{
    reveal(read_u32_at);
    reveal(be32_bytes);
    let e = b.subrange(pos, pos + 4);
    assert(b[pos] == e[0]);
    assert(b[pos + 1] == e[1]);
    assert(b[pos + 2] == e[2]);
    assert(b[pos + 3] == e[3]);
    lemma_be32(v);
}

proof fn lemma_read_i32(b: Seq<u8>, pos: int, v: i32)
    requires
        at(b, pos, i32_bytes(v)),
    ensures
        read_i32_at(b, pos) == Ok::<(i32, int), ProtocolError>((v, pos + 4)),
{
    lemma_read_u32(b, pos, v as u32);
    assert((v as u32) as i32 == v) by (bit_vector);
}

proof fn lemma_read_string(b: Seq<u8>, pos: int, s: Seq<char>)
    requires
        fits_wire(s),
        at(b, pos, string_bytes(s)),
    ensures
        read_string_at(b, pos) == Ok::<(Seq<char>, int), ProtocolError>(
            (s, pos + string_bytes(s).len()),
        ),
{
    reveal(read_string_at);
    reveal(string_bytes);
    let raw = encode_utf8(s);
    let n = wire_string_len(s);
    assert(raw.take(n as int) =~= raw);
    lemma_at_split(b, pos, seq![n as u8], raw);
    lemma_read_u8(b, pos, n as u8);
}

proof fn lemma_read_direction(b: Seq<u8>, pos: int, d: Direction)
    requires
        at(b, pos, seq![direction_code(d)]),
    ensures
        read_direction_at(b, pos) == Ok::<(Direction, int), ProtocolError>((d, pos + 1)),
{
    lemma_read_u8(b, pos, direction_code(d));
}

proof fn lemma_read_flag(b: Seq<u8>, pos: int, f: bool)
    requires
        at(b, pos, seq![bool_byte(f)]),
    ensures
        read_flag_at(b, pos) == Ok::<(bool, int), ProtocolError>((f, pos + 1)),
{
    lemma_read_u8(b, pos, bool_byte(f));
}

// ================================================================= cut short

/// A reading that failed because the bytes ended before the field did.
pub open spec fn ends_early<T>(r: Result<T, ProtocolError>) -> bool {
    r matches Err(e) && (e == ProtocolError::BufferUnderflow || e == ProtocolError::StringOverflow)
}

proof fn lemma_at_take(b: Seq<u8>, pos: int, e: Seq<u8>, k: int)
    requires
        at(b, pos, e),
        pos + e.len() <= k <= b.len(),
    ensures
        at(b.take(k), pos, e),
{
    assert(b.take(k).subrange(pos, pos + e.len()) =~= b.subrange(pos, pos + e.len()));
}

proof fn lemma_read_u8_upto(b: Seq<u8>, pos: int, v: u8, k: int)
    requires
        at(b, pos, seq![v]),
        0 <= k <= b.len(),
    ensures
        pos + 1 <= k ==> read_u8_at(b.take(k), pos) == Ok::<(u8, int), ProtocolError>(
            (v, pos + 1),
        ),
        k < pos + 1 ==> read_u8_at(b.take(k), pos) == Err::<(u8, int), ProtocolError>(
            ProtocolError::BufferUnderflow,
        ),
{
    if pos + 1 <= k {
        lemma_at_take(b, pos, seq![v], k);
        lemma_read_u8(b.take(k), pos, v);
    }
}

proof fn lemma_read_u16_upto(b: Seq<u8>, pos: int, v: u16, k: int)
    requires
        at(b, pos, be16_bytes(v)),
        0 <= k <= b.len(),
    ensures
        pos + 2 <= k ==> read_u16_at(b.take(k), pos) == Ok::<(u16, int), ProtocolError>(
            (v, pos + 2),
        ),
        k < pos + 2 ==> read_u16_at(b.take(k), pos) == Err::<(u16, int), ProtocolError>(
            ProtocolError::BufferUnderflow,
        ),
{
    reveal(read_u16_at);
    if pos + 2 <= k {
        lemma_at_take(b, pos, be16_bytes(v), k);
        lemma_read_u16(b.take(k), pos, v);
    }
}

proof fn lemma_read_u32_upto(b: Seq<u8>, pos: int, v: u32, k: int)
    requires
        at(b, pos, be32_bytes(v)),
        0 <= k <= b.len(),
    ensures
        pos + 4 <= k ==> read_u32_at(b.take(k), pos) == Ok::<(u32, int), ProtocolError>(
            (v, pos + 4),
        ),
        k < pos + 4 ==> read_u32_at(b.take(k), pos) == Err::<(u32, int), ProtocolError>(
            ProtocolError::BufferUnderflow,
        ),
{
    reveal(read_u32_at);
    if pos + 4 <= k {
        lemma_at_take(b, pos, be32_bytes(v), k);
        lemma_read_u32(b.take(k), pos, v);
    }
}

proof fn lemma_read_i32_upto(b: Seq<u8>, pos: int, v: i32, k: int)
    requires
        at(b, pos, i32_bytes(v)),
        0 <= k <= b.len(),
    ensures
        pos + 4 <= k ==> read_i32_at(b.take(k), pos) == Ok::<(i32, int), ProtocolError>(
            (v, pos + 4),
        ),
        k < pos + 4 ==> read_i32_at(b.take(k), pos) == Err::<(i32, int), ProtocolError>(
            ProtocolError::BufferUnderflow,
        ),
{
    reveal(read_u32_at);
    if pos + 4 <= k {
        lemma_at_take(b, pos, i32_bytes(v), k);
        lemma_read_i32(b.take(k), pos, v);
    }
}

proof fn lemma_read_string_upto(b: Seq<u8>, pos: int, s: Seq<char>, k: int)
    requires
        fits_wire(s),
        at(b, pos, string_bytes(s)),
        0 <= k <= b.len(),
    ensures
        pos + string_bytes(s).len() <= k ==> read_string_at(b.take(k), pos) == Ok::<
            (Seq<char>, int),
            ProtocolError,
        >((s, pos + string_bytes(s).len())),
        k < pos + string_bytes(s).len() ==> ends_early(read_string_at(b.take(k), pos)),
{
    reveal(read_string_at);
    if pos + string_bytes(s).len() <= k {
        lemma_at_take(b, pos, string_bytes(s), k);
        lemma_read_string(b.take(k), pos, s);
    } else if pos < k {
        reveal(string_bytes);
        let n = wire_string_len(s);
        assert(b[pos] == string_bytes(s)[0]);
        assert(b.take(k)[pos] == n as u8);
    }
}

proof fn lemma_read_direction_upto(b: Seq<u8>, pos: int, d: Direction, k: int)
    requires
        at(b, pos, seq![direction_code(d)]),
        0 <= k <= b.len(),
    ensures
        pos + 1 <= k ==> read_direction_at(b.take(k), pos) == Ok::<(Direction, int), ProtocolError>(
            (d, pos + 1),
        ),
        k < pos + 1 ==> ends_early(read_direction_at(b.take(k), pos)),
{
    lemma_read_u8_upto(b, pos, direction_code(d), k);
    if pos + 1 <= k {
        lemma_at_take(b, pos, seq![direction_code(d)], k);
        lemma_read_direction(b.take(k), pos, d);
    }
}

proof fn lemma_read_flag_upto(b: Seq<u8>, pos: int, f: bool, k: int)
    requires
        at(b, pos, seq![bool_byte(f)]),
        0 <= k <= b.len(),
    ensures
        pos + 1 <= k ==> read_flag_at(b.take(k), pos) == Ok::<(bool, int), ProtocolError>(
            (f, pos + 1),
        ),
        k < pos + 1 ==> ends_early(read_flag_at(b.take(k), pos)),
{
    lemma_read_u8_upto(b, pos, bool_byte(f), k);
    if pos + 1 <= k {
        lemma_at_take(b, pos, seq![bool_byte(f)], k);
        lemma_read_flag(b.take(k), pos, f);
    }
}

/// Wherever the encoding `f(x)` stands, the reader `rd` reads `x` back from
/// the bytes cut at `k` when the encoding ends by `k`, and stops early
/// otherwise.
pub open spec fn reads_back_upto<T>(
    rd: spec_fn(Seq<u8>, int) -> Result<(T, int), ProtocolError>,
    f: spec_fn(T) -> Seq<u8>,
    x: T,
) -> bool {
    forall|b: Seq<u8>, pos: int, k: int|
        #![trigger rd(b.take(k), pos), at(b, pos, f(x))]
        at(b, pos, f(x)) && 0 <= k <= b.len() ==> (pos + f(x).len() <= k ==> rd(b.take(k), pos)
            == Ok::<(T, int), ProtocolError>((x, pos + f(x).len()))) && (k < pos + f(x).len()
            ==> ends_early(rd(b.take(k), pos)))
}

/// A list whose items each read back (or stop early) does so whole.
proof fn lemma_read_many_upto<T>(
    b: Seq<u8>,
    pos: int,
    s: Seq<T>,
    f: spec_fn(T) -> Seq<u8>,
    rd: spec_fn(Seq<u8>, int) -> Result<(T, int), ProtocolError>,
    k: int,
)
    requires
        forall|i: int| 0 <= i < s.len() ==> #[trigger] reads_back_upto(rd, f, s[i]),
        at(b, pos, encode_all(s, f)),
        pos <= k <= b.len(),
    ensures
        pos + encode_all(s, f).len() <= k ==> read_many(b.take(k), pos, s.len(), rd) == Ok::<
            (Seq<T>, int),
            ProtocolError,
        >((s, pos + encode_all(s, f).len())),
        k < pos + encode_all(s, f).len() ==> ends_early(read_many(b.take(k), pos, s.len(), rd)),
    decreases s.len(),
{
    if s.len() > 0 {
        let init = s.drop_last();
        let x = s.last();
        lemma_at_split(b, pos, encode_all(init, f), f(x));
        assert forall|i: int| 0 <= i < init.len() implies #[trigger] reads_back_upto(
            rd,
            f,
            init[i],
        ) by {
            assert(init[i] == s[i]);
        }
        lemma_read_many_upto(b, pos, init, f, rd, k);
        assert(reads_back_upto(rd, f, s[s.len() - 1]));
        let p = pos + encode_all(init, f).len();
        assert(init.push(x) =~= s);
        if p <= k {
            assert(at(b, p, f(x)));
            let r = rd(b.take(k), p);
            assert(p + f(x).len() <= k ==> r == Ok::<(T, int), ProtocolError>((x, p + f(x).len())));
        }
    } else {
        assert(s =~= Seq::<T>::empty());
    }
}

/// The reader `rd` reads `x` back wherever its encoding `f(x)` stands.
pub open spec fn reads_back<T>(
    rd: spec_fn(Seq<u8>, int) -> Result<(T, int), ProtocolError>,
    f: spec_fn(T) -> Seq<u8>,
    x: T,
) -> bool {
    forall|b: Seq<u8>, pos: int|
        #![trigger rd(b, pos)]
        at(b, pos, f(x)) ==> rd(b, pos) == Ok::<(T, int), ProtocolError>((x, pos + f(x).len()))
}

/// A list whose items each read back reads back whole.
proof fn lemma_read_many<T>(
    b: Seq<u8>,
    pos: int,
    s: Seq<T>,
    f: spec_fn(T) -> Seq<u8>,
    rd: spec_fn(Seq<u8>, int) -> Result<(T, int), ProtocolError>,
)
    requires
        forall|i: int| 0 <= i < s.len() ==> #[trigger] reads_back(rd, f, s[i]),
        at(b, pos, encode_all(s, f)),
    ensures
        read_many(b, pos, s.len(), rd) == Ok::<(Seq<T>, int), ProtocolError>(
            (s, pos + encode_all(s, f).len()),
        ),
    decreases s.len(),
{
    if s.len() > 0 {
        let init = s.drop_last();
        let x = s.last();
        lemma_at_split(b, pos, encode_all(init, f), f(x));
        assert forall|i: int| 0 <= i < init.len() implies #[trigger] reads_back(rd, f, init[i]) by {
            assert(init[i] == s[i]);
        }
        lemma_read_many(b, pos, init, f, rd);
        assert(reads_back(rd, f, s[s.len() - 1]));
        let p = pos + encode_all(init, f).len();
        assert(rd(b, p) == Ok::<(T, int), ProtocolError>((x, p + f(x).len())));
        assert(init.push(x) =~= s);
        assert(read_many(b, pos, s.len(), rd) == Ok::<(Seq<T>, int), ProtocolError>(
            (init.push(x), p + f(x).len()),
        ));
    } else {
        assert(s =~= Seq::<T>::empty());
    }
}

proof fn lemma_lobby_player_reads_back(p: LobbyPlayerModel)
    requires
        fits_wire(p.name),
    ensures
        reads_back(lobby_player_reader(), lobby_player_encoder(), p),
{
    assert forall|b: Seq<u8>, pos: int|
        #![trigger lobby_player_reader()(b, pos)]
        at(b, pos, lobby_player_encoder()(p)) implies lobby_player_reader()(b, pos) == Ok::<
        (LobbyPlayerModel, int),
        ProtocolError,
    >((p, pos + lobby_player_encoder()(p).len())) by {
        lemma_at_split(b, pos, be16_bytes(p.player_id), string_bytes(p.name));
        lemma_read_u16(b, pos, p.player_id);
        lemma_read_string(b, pos + 2, p.name);
    }
}

proof fn lemma_player_wire_reads_back(p: PlayerWireModel)
    requires
        fits_wire(p.name),
    ensures
        reads_back(player_wire_reader(), player_wire_encoder(), p),
{
    assert forall|b: Seq<u8>, pos: int|
        #![trigger player_wire_reader()(b, pos)]
        at(b, pos, player_wire_encoder()(p)) implies player_wire_reader()(b, pos) == Ok::<
        (PlayerWireModel, int),
        ProtocolError,
    >((p, pos + player_wire_encoder()(p).len())) by {
        let e1 = be16_bytes(p.player_id);
        let e2 = string_bytes(p.name);
        let e3 = i32_bytes(p.x);
        let e4 = i32_bytes(p.y);
        let e5 = seq![direction_code(p.direction)];
        let e6 = seq![bool_byte(p.has_flag)];
        lemma_at_split(b, pos, e1 + e2 + e3 + e4 + e5, e6);
        lemma_at_split(b, pos, e1 + e2 + e3 + e4, e5);
        lemma_at_split(b, pos, e1 + e2 + e3, e4);
        lemma_at_split(b, pos, e1 + e2, e3);
        lemma_at_split(b, pos, e1, e2);
        lemma_read_u16(b, pos, p.player_id);
        lemma_read_string(b, pos + 2, p.name);
        let q = pos + 2 + e2.len();
        lemma_read_i32(b, q, p.x);
        lemma_read_i32(b, q + 4, p.y);
        lemma_read_direction(b, q + 8, p.direction);
        lemma_read_flag(b, q + 9, p.has_flag);
    }
}

proof fn lemma_player_state_reads_back(p: PlayerStateWire)
    ensures
        reads_back(player_state_reader(), player_state_encoder(), p),
{
    assert forall|b: Seq<u8>, pos: int|
        #![trigger player_state_reader()(b, pos)]
        at(b, pos, player_state_encoder()(p)) implies player_state_reader()(b, pos) == Ok::<
        (PlayerStateWire, int),
        ProtocolError,
    >((p, pos + player_state_encoder()(p).len())) by {
        let e1 = be16_bytes(p.player_id);
        let e2 = i32_bytes(p.x);
        let e3 = i32_bytes(p.y);
        let e4 = seq![direction_code(p.direction)];
        let e5 = seq![bool_byte(p.has_flag)];
        lemma_at_split(b, pos, e1 + e2 + e3 + e4, e5);
        lemma_at_split(b, pos, e1 + e2 + e3, e4);
        lemma_at_split(b, pos, e1 + e2, e3);
        lemma_at_split(b, pos, e1, e2);
        lemma_read_u16(b, pos, p.player_id);
        lemma_read_i32(b, pos + 2, p.x);
        lemma_read_i32(b, pos + 6, p.y);
        lemma_read_direction(b, pos + 10, p.direction);
        lemma_read_flag(b, pos + 11, p.has_flag);
    }
}

proof fn lemma_lobby_player_upto(p: LobbyPlayerModel)
    requires
        fits_wire(p.name),
    ensures
        reads_back_upto(lobby_player_reader(), lobby_player_encoder(), p),
{
    assert forall|b: Seq<u8>, pos: int, k: int|
        #![trigger lobby_player_reader()(b.take(k), pos)]
        at(b, pos, lobby_player_encoder()(p)) && 0 <= k <= b.len() implies (pos
        + lobby_player_encoder()(p).len() <= k ==> lobby_player_reader()(b.take(k), pos) == Ok::<
        (LobbyPlayerModel, int),
        ProtocolError,
    >((p, pos + lobby_player_encoder()(p).len()))) && (k < pos + lobby_player_encoder()(p).len()
        ==> ends_early(lobby_player_reader()(b.take(k), pos))) by {
        lemma_at_split(b, pos, be16_bytes(p.player_id), string_bytes(p.name));
        lemma_read_u16_upto(b, pos, p.player_id, k);
        lemma_read_string_upto(b, pos + 2, p.name, k);
    }
}

proof fn lemma_player_wire_upto(p: PlayerWireModel)
    requires
        fits_wire(p.name),
    ensures
        reads_back_upto(player_wire_reader(), player_wire_encoder(), p),
{
    assert forall|b: Seq<u8>, pos: int, k: int|
        #![trigger player_wire_reader()(b.take(k), pos)]
        at(b, pos, player_wire_encoder()(p)) && 0 <= k <= b.len() implies (pos
        + player_wire_encoder()(p).len() <= k ==> player_wire_reader()(b.take(k), pos) == Ok::<
        (PlayerWireModel, int),
        ProtocolError,
    >((p, pos + player_wire_encoder()(p).len()))) && (k < pos + player_wire_encoder()(p).len()
        ==> ends_early(player_wire_reader()(b.take(k), pos))) by {
        let e1 = be16_bytes(p.player_id);
        let e2 = string_bytes(p.name);
        let e3 = i32_bytes(p.x);
        let e4 = i32_bytes(p.y);
        let e5 = seq![direction_code(p.direction)];
        let e6 = seq![bool_byte(p.has_flag)];
        lemma_at_split(b, pos, e1 + e2 + e3 + e4 + e5, e6);
        lemma_at_split(b, pos, e1 + e2 + e3 + e4, e5);
        lemma_at_split(b, pos, e1 + e2 + e3, e4);
        lemma_at_split(b, pos, e1 + e2, e3);
        lemma_at_split(b, pos, e1, e2);
        lemma_read_u16_upto(b, pos, p.player_id, k);
        lemma_read_string_upto(b, pos + 2, p.name, k);
        let q = pos + 2 + e2.len();
        lemma_read_i32_upto(b, q, p.x, k);
        lemma_read_i32_upto(b, q + 4, p.y, k);
        lemma_read_direction_upto(b, q + 8, p.direction, k);
        lemma_read_flag_upto(b, q + 9, p.has_flag, k);
    }
}

proof fn lemma_player_state_upto(p: PlayerStateWire)
    ensures
        reads_back_upto(player_state_reader(), player_state_encoder(), p),
{
    assert forall|b: Seq<u8>, pos: int, k: int|
        #![trigger player_state_reader()(b.take(k), pos)]
        at(b, pos, player_state_encoder()(p)) && 0 <= k <= b.len() implies (pos
        + player_state_encoder()(p).len() <= k ==> player_state_reader()(b.take(k), pos) == Ok::<
        (PlayerStateWire, int),
        ProtocolError,
    >((p, pos + player_state_encoder()(p).len()))) && (k < pos + player_state_encoder()(p).len()
        ==> ends_early(player_state_reader()(b.take(k), pos))) by {
        let e1 = be16_bytes(p.player_id);
        let e2 = i32_bytes(p.x);
        let e3 = i32_bytes(p.y);
        let e4 = seq![direction_code(p.direction)];
        let e5 = seq![bool_byte(p.has_flag)];
        lemma_at_split(b, pos, e1 + e2 + e3 + e4, e5);
        lemma_at_split(b, pos, e1 + e2 + e3, e4);
        lemma_at_split(b, pos, e1 + e2, e3);
        lemma_at_split(b, pos, e1, e2);
        lemma_read_u16_upto(b, pos, p.player_id, k);
        lemma_read_i32_upto(b, pos + 2, p.x, k);
        lemma_read_i32_upto(b, pos + 6, p.y, k);
        lemma_read_direction_upto(b, pos + 10, p.direction, k);
        lemma_read_flag_upto(b, pos + 11, p.has_flag, k);
    }
}

/// A client message whose name (if any) fits in 255 bytes.
pub open spec fn client_message_fits(m: ClientMessageModel) -> bool {
    match m {
        ClientMessageModel::Join { name } => fits_wire(name),
        _ => true,
    }
}

/// A server message whose strings fit in 255 bytes and whose lists hold at
/// most 255 items.
pub open spec fn server_message_fits(m: ServerMessageModel) -> bool {
    match m {
        ServerMessageModel::LobbyState { players, .. } => players.len() <= 255 && forall|i: int|
            0 <= i < players.len() ==> fits_wire(#[trigger] players[i].name),
        ServerMessageModel::GameStarted { players, .. } => players.len() <= 255 && forall|i: int|
            0 <= i < players.len() ==> fits_wire(#[trigger] players[i].name),
        ServerMessageModel::GameState { players, .. } => players.len() <= 255,
        ServerMessageModel::GameOver { winner_name, .. } => fits_wire(winner_name),
        ServerMessageModel::Error { description, .. } => fits_wire(description),
        _ => true,
    }
}

/// Decoding the bytes of a client message gives that message back, provided
/// its name fits in 255 bytes.
pub proof fn lemma_client_message_round_trip(m: ClientMessageModel)
    requires
        client_message_fits(m),
    ensures
        client_message_of(client_message_bytes(m)) == Ok::<ClientMessageModel, ProtocolError>(m),
{
    let b = client_message_bytes(m);
    lemma_at_whole(b);
    match m {
        ClientMessageModel::Join { name } => {
            lemma_at_split(b, 0, header(MessageType::Join), string_bytes(name));
            lemma_read_string(b, 2, name);
        },
        ClientMessageModel::Input { player_id, direction } => {
            let h = header(MessageType::Input);
            lemma_at_split(b, 0, h + be16_bytes(player_id), seq![direction_code(direction)]);
            lemma_at_split(b, 0, h, be16_bytes(player_id));
            lemma_read_u16(b, 2, player_id);
            lemma_read_direction(b, 4, direction);
        },
        ClientMessageModel::Interact { player_id } => {
            lemma_at_split(b, 0, header(MessageType::Interact), be16_bytes(player_id));
            lemma_read_u16(b, 2, player_id);
        },
        ClientMessageModel::Leave { player_id } => {
            lemma_at_split(b, 0, header(MessageType::Leave), be16_bytes(player_id));
            lemma_read_u16(b, 2, player_id);
        },
    }
}

proof fn lemma_join_accepted_round_trip(m: ServerMessageModel)
    requires
        m is JoinAccepted,
        server_message_fits(m),
    ensures
        server_message_of(server_message_bytes(m)) == Ok::<ServerMessageModel, ProtocolError>(m),
{
    let b = server_message_bytes(m);
    lemma_at_whole(b);
    match m {
        ServerMessageModel::JoinAccepted { player_id, game_id } => {
        let h = header(MessageType::JoinAccepted);
        lemma_at_split(b, 0, h + be16_bytes(player_id), be16_bytes(game_id));
        lemma_at_split(b, 0, h, be16_bytes(player_id));
        lemma_read_u16(b, 2, player_id);
        lemma_read_u16(b, 4, game_id);
    },
        _ => {},
    }
}

proof fn lemma_join_rejected_round_trip(m: ServerMessageModel)
    requires
        m is JoinRejected,
        server_message_fits(m),
    ensures
        server_message_of(server_message_bytes(m)) == Ok::<ServerMessageModel, ProtocolError>(m),
{
    let b = server_message_bytes(m);
    lemma_at_whole(b);
    match m {
        ServerMessageModel::JoinRejected { reason } => {
        let h = header(MessageType::JoinRejected);
        lemma_at_split(b, 0, h, seq![join_reject_reason_code(reason)]);
        lemma_read_u8(b, 2, join_reject_reason_code(reason));
    },
        _ => {},
    }
}

proof fn lemma_lobby_state_round_trip(m: ServerMessageModel)
    requires
        m is LobbyState,
        server_message_fits(m),
    ensures
        server_message_of(server_message_bytes(m)) == Ok::<ServerMessageModel, ProtocolError>(m),
{
    let b = server_message_bytes(m);
    lemma_at_whole(b);
    match m {
        ServerMessageModel::LobbyState { state, players } => {
        let h = header(MessageType::LobbyState);
        let p1 = h + seq![game_phase_code(state)];
        let p2 = p1 + seq![players.len() as u8];
        lemma_at_split(b, 0, p2, encode_all(players, lobby_player_encoder()));
        lemma_at_split(b, 0, p1, seq![players.len() as u8]);
        lemma_at_split(b, 0, h, seq![game_phase_code(state)]);
        lemma_read_u8(b, 2, game_phase_code(state));
        lemma_read_u8(b, 3, players.len() as u8);
        assert forall|i: int| 0 <= i < players.len() implies #[trigger] reads_back(
            lobby_player_reader(),
            lobby_player_encoder(),
            players[i],
        ) by {
            lemma_lobby_player_reads_back(players[i]);
        }
        lemma_read_many(b, 4, players, lobby_player_encoder(), lobby_player_reader());
    },
        _ => {},
    }
}

proof fn lemma_game_countdown_round_trip(m: ServerMessageModel)
    requires
        m is GameCountdown,
        server_message_fits(m),
    ensures
        server_message_of(server_message_bytes(m)) == Ok::<ServerMessageModel, ProtocolError>(m),
{
    let b = server_message_bytes(m);
    lemma_at_whole(b);
    match m {
        ServerMessageModel::GameCountdown { seconds_remaining } => {
        let h = header(MessageType::GameCountdown);
        lemma_at_split(b, 0, h, seq![seconds_remaining]);
        lemma_read_u8(b, 2, seconds_remaining);
    },
        _ => {},
    }
}

proof fn lemma_game_started_round_trip(m: ServerMessageModel)
    requires
        m is GameStarted,
        server_message_fits(m),
    ensures
        server_message_of(server_message_bytes(m)) == Ok::<ServerMessageModel, ProtocolError>(m),
{
    let b = server_message_bytes(m);
    lemma_at_whole(b);
    match m {
        ServerMessageModel::GameStarted {
        map_size,
        circle_radius,
        player_radius,
        player_speed,
        interaction_radius,
        tick_interval_ms,
        flag_status,
        flag_carrier_id,
        flag_x,
        flag_y,
        players,
    } => {
        let h = header(MessageType::GameStarted);
        let p1 = h + i32_bytes(map_size);
        let p2 = p1 + i32_bytes(circle_radius);
        let p3 = p2 + i32_bytes(player_radius);
        let p4 = p3 + i32_bytes(player_speed);
        let p5 = p4 + i32_bytes(interaction_radius);
        let p6 = p5 + be16_bytes(tick_interval_ms);
        let p7 = p6 + seq![flag_status_code(flag_status)];
        let p8 = p7 + be16_bytes(flag_carrier_id);
        let p9 = p8 + i32_bytes(flag_x);
        let p10 = p9 + i32_bytes(flag_y);
        let p11 = p10 + seq![players.len() as u8];
        lemma_at_split(b, 0, p11, encode_all(players, player_wire_encoder()));
        lemma_at_split(b, 0, p10, seq![players.len() as u8]);
        lemma_at_split(b, 0, p9, i32_bytes(flag_y));
        lemma_at_split(b, 0, p8, i32_bytes(flag_x));
        lemma_at_split(b, 0, p7, be16_bytes(flag_carrier_id));
        lemma_at_split(b, 0, p6, seq![flag_status_code(flag_status)]);
        lemma_at_split(b, 0, p5, be16_bytes(tick_interval_ms));
        lemma_at_split(b, 0, p4, i32_bytes(interaction_radius));
        lemma_at_split(b, 0, p3, i32_bytes(player_speed));
        lemma_at_split(b, 0, p2, i32_bytes(player_radius));
        lemma_at_split(b, 0, p1, i32_bytes(circle_radius));
        lemma_at_split(b, 0, h, i32_bytes(map_size));
        lemma_read_i32(b, 2, map_size);
        lemma_read_i32(b, 6, circle_radius);
        lemma_read_i32(b, 10, player_radius);
        lemma_read_i32(b, 14, player_speed);
        lemma_read_i32(b, 18, interaction_radius);
        lemma_read_u16(b, 22, tick_interval_ms);
        lemma_read_u8(b, 24, flag_status_code(flag_status));
        lemma_read_u16(b, 25, flag_carrier_id);
        lemma_read_i32(b, 27, flag_x);
        lemma_read_i32(b, 31, flag_y);
        lemma_read_u8(b, 35, players.len() as u8);
        assert forall|i: int| 0 <= i < players.len() implies #[trigger] reads_back(
            player_wire_reader(),
            player_wire_encoder(),
            players[i],
        ) by {
            lemma_player_wire_reads_back(players[i]);
        }
        lemma_read_many(b, 36, players, player_wire_encoder(), player_wire_reader());
    },
        _ => {},
    }
}

proof fn lemma_game_state_round_trip(m: ServerMessageModel)
    requires
        m is GameState,
        server_message_fits(m),
    ensures
        server_message_of(server_message_bytes(m)) == Ok::<ServerMessageModel, ProtocolError>(m),
{
    let b = server_message_bytes(m);
    lemma_at_whole(b);
    match m {
        ServerMessageModel::GameState {
        tick,
        flag_status,
        flag_carrier_id,
        flag_x,
        flag_y,
        players,
    } => {
        let h = header(MessageType::GameState);
        let p1 = h + be32_bytes(tick);
        let p2 = p1 + seq![flag_status_code(flag_status)];
        let p3 = p2 + be16_bytes(flag_carrier_id);
        let p4 = p3 + i32_bytes(flag_x);
        let p5 = p4 + i32_bytes(flag_y);
        let p6 = p5 + seq![players.len() as u8];
        lemma_at_split(b, 0, p6, encode_all(players, player_state_encoder()));
        lemma_at_split(b, 0, p5, seq![players.len() as u8]);
        lemma_at_split(b, 0, p4, i32_bytes(flag_y));
        lemma_at_split(b, 0, p3, i32_bytes(flag_x));
        lemma_at_split(b, 0, p2, be16_bytes(flag_carrier_id));
        lemma_at_split(b, 0, p1, seq![flag_status_code(flag_status)]);
        lemma_at_split(b, 0, h, be32_bytes(tick));
        lemma_read_u32(b, 2, tick);
        lemma_read_u8(b, 6, flag_status_code(flag_status));
        lemma_read_u16(b, 7, flag_carrier_id);
        lemma_read_i32(b, 9, flag_x);
        lemma_read_i32(b, 13, flag_y);
        lemma_read_u8(b, 17, players.len() as u8);
        assert forall|i: int| 0 <= i < players.len() implies #[trigger] reads_back(
            player_state_reader(),
            player_state_encoder(),
            players[i],
        ) by {
            lemma_player_state_reads_back(players[i]);
        }
        lemma_read_many(b, 18, players, player_state_encoder(), player_state_reader());
    },
        _ => {},
    }
}

proof fn lemma_flag_picked_up_round_trip(m: ServerMessageModel)
    requires
        m is FlagPickedUp,
        server_message_fits(m),
    ensures
        server_message_of(server_message_bytes(m)) == Ok::<ServerMessageModel, ProtocolError>(m),
{
    let b = server_message_bytes(m);
    lemma_at_whole(b);
    match m {
        ServerMessageModel::FlagPickedUp { tick, player_id } => {
        let h = header(MessageType::FlagPickedUp);
        lemma_at_split(b, 0, h + be32_bytes(tick), be16_bytes(player_id));
        lemma_at_split(b, 0, h, be32_bytes(tick));
        lemma_read_u32(b, 2, tick);
        lemma_read_u16(b, 6, player_id);
    },
        _ => {},
    }
}

proof fn lemma_flag_stolen_round_trip(m: ServerMessageModel)
    requires
        m is FlagStolen,
        server_message_fits(m),
    ensures
        server_message_of(server_message_bytes(m)) == Ok::<ServerMessageModel, ProtocolError>(m),
{
    let b = server_message_bytes(m);
    lemma_at_whole(b);
    match m {
        ServerMessageModel::FlagStolen { tick, previous_carrier_id, new_carrier_id } => {
        let h = header(MessageType::FlagStolen);
        let p1 = h + be32_bytes(tick);
        let p2 = p1 + be16_bytes(previous_carrier_id);
        lemma_at_split(b, 0, p2, be16_bytes(new_carrier_id));
        lemma_at_split(b, 0, p1, be16_bytes(previous_carrier_id));
        lemma_at_split(b, 0, h, be32_bytes(tick));
        lemma_read_u32(b, 2, tick);
        lemma_read_u16(b, 6, previous_carrier_id);
        lemma_read_u16(b, 8, new_carrier_id);
    },
        _ => {},
    }
}

proof fn lemma_player_disconnected_round_trip(m: ServerMessageModel)
    requires
        m is PlayerDisconnected,
        server_message_fits(m),
    ensures
        server_message_of(server_message_bytes(m)) == Ok::<ServerMessageModel, ProtocolError>(m),
{
    let b = server_message_bytes(m);
    lemma_at_whole(b);
    match m {
        ServerMessageModel::PlayerDisconnected { player_id } => {
        let h = header(MessageType::PlayerDisconnected);
        lemma_at_split(b, 0, h, be16_bytes(player_id));
        lemma_read_u16(b, 2, player_id);
    },
        _ => {},
    }
}

proof fn lemma_game_over_round_trip(m: ServerMessageModel)
    requires
        m is GameOver,
        server_message_fits(m),
    ensures
        server_message_of(server_message_bytes(m)) == Ok::<ServerMessageModel, ProtocolError>(m),
{
    let b = server_message_bytes(m);
    lemma_at_whole(b);
    match m {
        ServerMessageModel::GameOver { winner_id, winner_name, reason } => {
        let h = header(MessageType::GameOver);
        let p1 = h + be16_bytes(winner_id);
        let p2 = p1 + string_bytes(winner_name);
        lemma_at_split(b, 0, p2, seq![game_over_reason_code(reason)]);
        lemma_at_split(b, 0, p1, string_bytes(winner_name));
        lemma_at_split(b, 0, h, be16_bytes(winner_id));
        lemma_read_u16(b, 2, winner_id);
        lemma_read_string(b, 4, winner_name);
        assert(reason == GameOverReason::ExitedCircleWithFlag);
    },
        _ => {},
    }
}

proof fn lemma_error_round_trip(m: ServerMessageModel)
    requires
        m is Error,
        server_message_fits(m),
    ensures
        server_message_of(server_message_bytes(m)) == Ok::<ServerMessageModel, ProtocolError>(m),
{
    let b = server_message_bytes(m);
    lemma_at_whole(b);
    match m {
        ServerMessageModel::Error { code, description } => {
        let h = header(MessageType::Error);
        let p1 = h + seq![error_code_code(code)];
        lemma_at_split(b, 0, p1, string_bytes(description));
        lemma_at_split(b, 0, h, seq![error_code_code(code)]);
        lemma_read_u8(b, 2, error_code_code(code));
        lemma_read_string(b, 3, description);
    },
        _ => {},
    }
}

/// Decoding the bytes of a server message gives that message back, provided
/// its strings fit in 255 bytes and its lists hold at most 255 items.
pub proof fn lemma_server_message_round_trip(m: ServerMessageModel)
    requires
        server_message_fits(m),
    ensures
        server_message_of(server_message_bytes(m)) == Ok::<ServerMessageModel, ProtocolError>(m),
{
    match m {
        ServerMessageModel::JoinAccepted { .. } => lemma_join_accepted_round_trip(m),
        ServerMessageModel::JoinRejected { .. } => lemma_join_rejected_round_trip(m),
        ServerMessageModel::LobbyState { .. } => lemma_lobby_state_round_trip(m),
        ServerMessageModel::GameCountdown { .. } => lemma_game_countdown_round_trip(m),
        ServerMessageModel::GameStarted { .. } => lemma_game_started_round_trip(m),
        ServerMessageModel::GameState { .. } => lemma_game_state_round_trip(m),
        ServerMessageModel::FlagPickedUp { .. } => lemma_flag_picked_up_round_trip(m),
        ServerMessageModel::FlagStolen { .. } => lemma_flag_stolen_round_trip(m),
        ServerMessageModel::PlayerDisconnected { .. } => lemma_player_disconnected_round_trip(m),
        ServerMessageModel::GameOver { .. } => lemma_game_over_round_trip(m),
        ServerMessageModel::Error { .. } => lemma_error_round_trip(m),
    }
}

proof fn lemma_header_upto(b: Seq<u8>, t: MessageType, k: int)
    requires
        at(b, 0, header(t)),
        2 <= k <= b.len(),
    ensures
        read_header(b.take(k)) == Ok::<MessageType, ProtocolError>(t),
{
    lemma_message_type_code_round_trip(t, 0);
    assert(b[0] == header(t)[0]);
    assert(b[1] == header(t)[1]);
}

proof fn lemma_join_accepted_cut(m: ServerMessageModel, k: int)
    requires
        m is JoinAccepted,
        server_message_fits(m),
        2 <= k < server_message_bytes(m).len(),
    ensures
        ends_early(server_message_of(server_message_bytes(m).take(k))),
{
    let b = server_message_bytes(m);
    lemma_at_whole(b);
    match m {
        ServerMessageModel::JoinAccepted { player_id, game_id } => {
            let h = header(MessageType::JoinAccepted);
            lemma_at_split(b, 0, h + be16_bytes(player_id), be16_bytes(game_id));
            lemma_at_split(b, 0, h, be16_bytes(player_id));
            lemma_header_upto(b, MessageType::JoinAccepted, k);
            lemma_read_u16_upto(b, 2, player_id, k);
            lemma_read_u16_upto(b, 4, game_id, k);
        },
        _ => {},
    }
}

proof fn lemma_join_rejected_cut(m: ServerMessageModel, k: int)
    requires
        m is JoinRejected,
        server_message_fits(m),
        2 <= k < server_message_bytes(m).len(),
    ensures
        ends_early(server_message_of(server_message_bytes(m).take(k))),
{
    let b = server_message_bytes(m);
    lemma_at_whole(b);
    match m {
        ServerMessageModel::JoinRejected { reason } => {
            let h = header(MessageType::JoinRejected);
            lemma_at_split(b, 0, h, seq![join_reject_reason_code(reason)]);
            lemma_header_upto(b, MessageType::JoinRejected, k);
            lemma_read_u8_upto(b, 2, join_reject_reason_code(reason), k);
        },
        _ => {},
    }
}

proof fn lemma_lobby_state_cut(m: ServerMessageModel, k: int)
    requires
        m is LobbyState,
        server_message_fits(m),
        2 <= k < server_message_bytes(m).len(),
    ensures
        ends_early(server_message_of(server_message_bytes(m).take(k))),
{
    let b = server_message_bytes(m);
    lemma_at_whole(b);
    match m {
        ServerMessageModel::LobbyState { state, players } => {
            let h = header(MessageType::LobbyState);
            let p1 = h + seq![game_phase_code(state)];
            let p2 = p1 + seq![players.len() as u8];
            lemma_at_split(b, 0, p2, encode_all(players, lobby_player_encoder()));
            lemma_at_split(b, 0, p1, seq![players.len() as u8]);
            lemma_at_split(b, 0, h, seq![game_phase_code(state)]);
            lemma_header_upto(b, MessageType::LobbyState, k);
            lemma_read_u8_upto(b, 2, game_phase_code(state), k);
            lemma_read_u8_upto(b, 3, players.len() as u8, k);
            lemma_game_phase_code_round_trip(state, 0);
            assert forall|i: int| 0 <= i < players.len() implies #[trigger] reads_back_upto(
                lobby_player_reader(),
                lobby_player_encoder(),
                players[i],
            ) by {
                lemma_lobby_player_upto(players[i]);
            }
            if 4 <= k {
                lemma_read_many_upto(b, 4, players, lobby_player_encoder(), lobby_player_reader(), k);
            }
        },
        _ => {},
    }
}

proof fn lemma_game_countdown_cut(m: ServerMessageModel, k: int)
    requires
        m is GameCountdown,
        server_message_fits(m),
        2 <= k < server_message_bytes(m).len(),
    ensures
        ends_early(server_message_of(server_message_bytes(m).take(k))),
{
    let b = server_message_bytes(m);
    lemma_at_whole(b);
    match m {
        ServerMessageModel::GameCountdown { seconds_remaining } => {
            let h = header(MessageType::GameCountdown);
            lemma_at_split(b, 0, h, seq![seconds_remaining]);
            lemma_header_upto(b, MessageType::GameCountdown, k);
            lemma_read_u8_upto(b, 2, seconds_remaining, k);
        },
        _ => {},
    }
}

proof fn lemma_game_started_cut(m: ServerMessageModel, k: int)
    requires
        m is GameStarted,
        server_message_fits(m),
        2 <= k < server_message_bytes(m).len(),
    ensures
        ends_early(server_message_of(server_message_bytes(m).take(k))),
{
    let b = server_message_bytes(m);
    lemma_at_whole(b);
    match m {
        ServerMessageModel::GameStarted {
            map_size,
            circle_radius,
            player_radius,
            player_speed,
            interaction_radius,
            tick_interval_ms,
            flag_status,
            flag_carrier_id,
            flag_x,
            flag_y,
            players,
        } => {
            let h = header(MessageType::GameStarted);
            let p1 = h + i32_bytes(map_size);
            let p2 = p1 + i32_bytes(circle_radius);
            let p3 = p2 + i32_bytes(player_radius);
            let p4 = p3 + i32_bytes(player_speed);
            let p5 = p4 + i32_bytes(interaction_radius);
            let p6 = p5 + be16_bytes(tick_interval_ms);
            let p7 = p6 + seq![flag_status_code(flag_status)];
            let p8 = p7 + be16_bytes(flag_carrier_id);
            let p9 = p8 + i32_bytes(flag_x);
            let p10 = p9 + i32_bytes(flag_y);
            let p11 = p10 + seq![players.len() as u8];
            lemma_at_split(b, 0, p11, encode_all(players, player_wire_encoder()));
            lemma_at_split(b, 0, p10, seq![players.len() as u8]);
            lemma_at_split(b, 0, p9, i32_bytes(flag_y));
            lemma_at_split(b, 0, p8, i32_bytes(flag_x));
            lemma_at_split(b, 0, p7, be16_bytes(flag_carrier_id));
            lemma_at_split(b, 0, p6, seq![flag_status_code(flag_status)]);
            lemma_at_split(b, 0, p5, be16_bytes(tick_interval_ms));
            lemma_at_split(b, 0, p4, i32_bytes(interaction_radius));
            lemma_at_split(b, 0, p3, i32_bytes(player_speed));
            lemma_at_split(b, 0, p2, i32_bytes(player_radius));
            lemma_at_split(b, 0, p1, i32_bytes(circle_radius));
            lemma_at_split(b, 0, h, i32_bytes(map_size));
            lemma_header_upto(b, MessageType::GameStarted, k);
            lemma_read_i32_upto(b, 2, map_size, k);
            lemma_read_i32_upto(b, 6, circle_radius, k);
            lemma_read_i32_upto(b, 10, player_radius, k);
            lemma_read_i32_upto(b, 14, player_speed, k);
            lemma_read_i32_upto(b, 18, interaction_radius, k);
            lemma_read_u16_upto(b, 22, tick_interval_ms, k);
            lemma_read_u8_upto(b, 24, flag_status_code(flag_status), k);
            lemma_read_u16_upto(b, 25, flag_carrier_id, k);
            lemma_read_i32_upto(b, 27, flag_x, k);
            lemma_read_i32_upto(b, 31, flag_y, k);
            lemma_read_u8_upto(b, 35, players.len() as u8, k);
            lemma_flag_status_code_round_trip(flag_status, 0);
            assert forall|i: int| 0 <= i < players.len() implies #[trigger] reads_back_upto(
                player_wire_reader(),
                player_wire_encoder(),
                players[i],
            ) by {
                lemma_player_wire_upto(players[i]);
            }
            if 36 <= k {
                lemma_read_many_upto(b, 36, players, player_wire_encoder(), player_wire_reader(), k);
            }
        },
        _ => {},
    }
}

proof fn lemma_game_state_cut(m: ServerMessageModel, k: int)
    requires
        m is GameState,
        server_message_fits(m),
        2 <= k < server_message_bytes(m).len(),
    ensures
        ends_early(server_message_of(server_message_bytes(m).take(k))),
{
    let b = server_message_bytes(m);
    lemma_at_whole(b);
    match m {
        ServerMessageModel::GameState {
            tick,
            flag_status,
            flag_carrier_id,
            flag_x,
            flag_y,
            players,
        } => {
            let h = header(MessageType::GameState);
            let p1 = h + be32_bytes(tick);
            let p2 = p1 + seq![flag_status_code(flag_status)];
            let p3 = p2 + be16_bytes(flag_carrier_id);
            let p4 = p3 + i32_bytes(flag_x);
            let p5 = p4 + i32_bytes(flag_y);
            let p6 = p5 + seq![players.len() as u8];
            lemma_at_split(b, 0, p6, encode_all(players, player_state_encoder()));
            lemma_at_split(b, 0, p5, seq![players.len() as u8]);
            lemma_at_split(b, 0, p4, i32_bytes(flag_y));
            lemma_at_split(b, 0, p3, i32_bytes(flag_x));
            lemma_at_split(b, 0, p2, be16_bytes(flag_carrier_id));
            lemma_at_split(b, 0, p1, seq![flag_status_code(flag_status)]);
            lemma_at_split(b, 0, h, be32_bytes(tick));
            lemma_header_upto(b, MessageType::GameState, k);
            lemma_read_u32_upto(b, 2, tick, k);
            lemma_read_u8_upto(b, 6, flag_status_code(flag_status), k);
            lemma_read_u16_upto(b, 7, flag_carrier_id, k);
            lemma_read_i32_upto(b, 9, flag_x, k);
            lemma_read_i32_upto(b, 13, flag_y, k);
            lemma_read_u8_upto(b, 17, players.len() as u8, k);
            lemma_flag_status_code_round_trip(flag_status, 0);
            assert forall|i: int| 0 <= i < players.len() implies #[trigger] reads_back_upto(
                player_state_reader(),
                player_state_encoder(),
                players[i],
            ) by {
                lemma_player_state_upto(players[i]);
            }
            if 18 <= k {
                lemma_read_many_upto(b, 18, players, player_state_encoder(), player_state_reader(), k);
            }
        },
        _ => {},
    }
}

proof fn lemma_flag_picked_up_cut(m: ServerMessageModel, k: int)
    requires
        m is FlagPickedUp,
        server_message_fits(m),
        2 <= k < server_message_bytes(m).len(),
    ensures
        ends_early(server_message_of(server_message_bytes(m).take(k))),
{
    let b = server_message_bytes(m);
    lemma_at_whole(b);
    match m {
        ServerMessageModel::FlagPickedUp { tick, player_id } => {
            let h = header(MessageType::FlagPickedUp);
            lemma_at_split(b, 0, h + be32_bytes(tick), be16_bytes(player_id));
            lemma_at_split(b, 0, h, be32_bytes(tick));
            lemma_header_upto(b, MessageType::FlagPickedUp, k);
            lemma_read_u32_upto(b, 2, tick, k);
            lemma_read_u16_upto(b, 6, player_id, k);
        },
        _ => {},
    }
}

proof fn lemma_flag_stolen_cut(m: ServerMessageModel, k: int)
    requires
        m is FlagStolen,
        server_message_fits(m),
        2 <= k < server_message_bytes(m).len(),
    ensures
        ends_early(server_message_of(server_message_bytes(m).take(k))),
{
    let b = server_message_bytes(m);
    lemma_at_whole(b);
    match m {
        ServerMessageModel::FlagStolen { tick, previous_carrier_id, new_carrier_id } => {
            let h = header(MessageType::FlagStolen);
            let p1 = h + be32_bytes(tick);
            let p2 = p1 + be16_bytes(previous_carrier_id);
            lemma_at_split(b, 0, p2, be16_bytes(new_carrier_id));
            lemma_at_split(b, 0, p1, be16_bytes(previous_carrier_id));
            lemma_at_split(b, 0, h, be32_bytes(tick));
            lemma_header_upto(b, MessageType::FlagStolen, k);
            lemma_read_u32_upto(b, 2, tick, k);
            lemma_read_u16_upto(b, 6, previous_carrier_id, k);
            lemma_read_u16_upto(b, 8, new_carrier_id, k);
        },
        _ => {},
    }
}

#[verifier::spinoff_prover]
proof fn lemma_player_disconnected_cut(m: ServerMessageModel, k: int)
    requires
        m is PlayerDisconnected,
        server_message_fits(m),
        2 <= k < server_message_bytes(m).len(),
    ensures
        ends_early(server_message_of(server_message_bytes(m).take(k))),
{
    let b = server_message_bytes(m);
    lemma_at_whole(b);
    match m {
        ServerMessageModel::PlayerDisconnected { player_id } => {
            let h = header(MessageType::PlayerDisconnected);
            lemma_at_split(b, 0, h, be16_bytes(player_id));
            lemma_header_upto(b, MessageType::PlayerDisconnected, k);
            lemma_read_u16_upto(b, 2, player_id, k);
            assert(b.len() == 4);
            assert(read_u16_at(b.take(k), 2) == Err::<(u16, int), ProtocolError>(
                ProtocolError::BufferUnderflow,
            ));
        },
        _ => {},
    }
}

proof fn lemma_error_cut(m: ServerMessageModel, k: int)
    requires
        m is Error,
        server_message_fits(m),
        2 <= k < server_message_bytes(m).len(),
    ensures
        ends_early(server_message_of(server_message_bytes(m).take(k))),
{
    let b = server_message_bytes(m);
    lemma_at_whole(b);
    match m {
        ServerMessageModel::Error { code, description } => {
            let h = header(MessageType::Error);
            let p1 = h + seq![error_code_code(code)];
            lemma_at_split(b, 0, p1, string_bytes(description));
            lemma_at_split(b, 0, h, seq![error_code_code(code)]);
            lemma_header_upto(b, MessageType::Error, k);
            lemma_read_u8_upto(b, 2, error_code_code(code), k);
            lemma_read_string_upto(b, 3, description, k);
        },
        _ => {},
    }
}

proof fn lemma_game_over_cut(m: ServerMessageModel, k: int)
    requires
        m is GameOver,
        server_message_fits(m),
        2 <= k < server_message_bytes(m).len() - 1,
    ensures
        ends_early(server_message_of(server_message_bytes(m).take(k))),
{
    let b = server_message_bytes(m);
    lemma_at_whole(b);
    match m {
        ServerMessageModel::GameOver { winner_id, winner_name, reason } => {
            let h = header(MessageType::GameOver);
            let p1 = h + be16_bytes(winner_id);
            let p2 = p1 + string_bytes(winner_name);
            lemma_at_split(b, 0, p2, seq![game_over_reason_code(reason)]);
            lemma_at_split(b, 0, p1, string_bytes(winner_name));
            lemma_at_split(b, 0, h, be16_bytes(winner_id));
            lemma_header_upto(b, MessageType::GameOver, k);
            lemma_read_u16_upto(b, 2, winner_id, k);
            lemma_read_string_upto(b, 4, winner_name, k);
        },
        _ => {},
    }
}

/// A server message cut short is refused: decoding the encoding of a
/// message cut anywhere after its header fails because the bytes end early.
/// The one exception is a game-over message cut just before its last byte,
/// its reason, which the decoder does not read.
pub proof fn lemma_server_message_truncated(m: ServerMessageModel, k: int)
    requires
        server_message_fits(m),
        2 <= k < server_message_bytes(m).len(),
        m is GameOver ==> k < server_message_bytes(m).len() - 1,
    ensures
        ends_early(server_message_of(server_message_bytes(m).take(k))),
{
    match m {
        ServerMessageModel::JoinAccepted { .. } => lemma_join_accepted_cut(m, k),
        ServerMessageModel::JoinRejected { .. } => lemma_join_rejected_cut(m, k),
        ServerMessageModel::LobbyState { .. } => lemma_lobby_state_cut(m, k),
        ServerMessageModel::GameCountdown { .. } => lemma_game_countdown_cut(m, k),
        ServerMessageModel::GameStarted { .. } => lemma_game_started_cut(m, k),
        ServerMessageModel::GameState { .. } => lemma_game_state_cut(m, k),
        ServerMessageModel::FlagPickedUp { .. } => lemma_flag_picked_up_cut(m, k),
        ServerMessageModel::FlagStolen { .. } => lemma_flag_stolen_cut(m, k),
        ServerMessageModel::PlayerDisconnected { .. } => lemma_player_disconnected_cut(m, k),
        ServerMessageModel::GameOver { .. } => lemma_game_over_cut(m, k),
        ServerMessageModel::Error { .. } => lemma_error_cut(m, k),
    }
}

// ================================================================= fixed layouts

/// The byte each direction travels as: 0 for standing still, then 1 up, 2
/// down, 3 left, 4 right.
pub open spec fn direction_wire_byte(d: Direction) -> u8 {
    match d {
        Direction::Idle => 0,
        Direction::Up => 1,
        Direction::Down => 2,
        Direction::Left => 3,
        Direction::Right => 4,
    }
}

/// An input message is five bytes: its type 0x11, the version 3, the
/// player id big-endian, then the direction's byte (0 still, 1 up, 2 down,
/// 3 left, 4 right). Read back, five such bytes give that player and that
/// direction, and a direction byte above 4 is refused.
pub proof fn lemma_input_message_layout(player_id: u16, d: Direction, hi: u8, lo: u8, v: u8)
    ensures
        client_message_bytes(ClientMessageModel::Input { player_id, direction: d }) == seq![
            0x11u8,
            3u8,
            (player_id / 256) as u8,
            (player_id % 256) as u8,
            direction_wire_byte(d),
        ],
        v <= 4 ==> client_message_of(seq![0x11u8, 3u8, hi, lo, v]) == Ok::<
            ClientMessageModel,
            ProtocolError,
        >(
            ClientMessageModel::Input {
                player_id: (hi * 256 + lo) as u16,
                direction: if v == 0 {
                    Direction::Idle
                } else if v == 1 {
                    Direction::Up
                } else if v == 2 {
                    Direction::Down
                } else if v == 3 {
                    Direction::Left
                } else {
                    Direction::Right
                },
            },
        ),
        v > 4 ==> client_message_of(seq![0x11u8, 3u8, hi, lo, v]) == Err::<
            ClientMessageModel,
            ProtocolError,
        >(ProtocolError::InvalidDirection),
{
    reveal(be16_bytes);
    reveal(read_u16_at);
    assert(client_message_bytes(ClientMessageModel::Input { player_id, direction: d }) =~= seq![
        0x11u8,
        3u8,
        (player_id / 256) as u8,
        (player_id % 256) as u8,
        direction_wire_byte(d),
    ]);
    let b = seq![0x11u8, 3u8, hi, lo, v];
    lemma_message_type_code_round_trip(MessageType::Input, 0);
    assert(read_header(b) == Ok::<MessageType, ProtocolError>(MessageType::Input));
    assert(read_u16_at(b, 2) == Ok::<(u16, int), ProtocolError>(((hi * 256 + lo) as u16, 4)));
    assert(read_u8_at(b, 4) == Ok::<(u8, int), ProtocolError>((v, 5)));
}

/// A game-started message begins with its type 0x24 and the version 3,
/// then the map size, the circle's radius, the player radius, the player
/// speed and the interaction radius, each as four big-endian bytes, in
/// that order.
pub proof fn lemma_game_started_layout(m: ServerMessageModel)
    requires
        m is GameStarted,
    ensures
        ({
            let e = server_message_bytes(m);
            &&& e[0] == 0x24 && e[1] == 3
            &&& e.subrange(2, 6) == i32_bytes(m->GameStarted_map_size)
            &&& e.subrange(6, 10) == i32_bytes(m->GameStarted_circle_radius)
            &&& e.subrange(10, 14) == i32_bytes(m->GameStarted_player_radius)
            &&& e.subrange(14, 18) == i32_bytes(m->GameStarted_player_speed)
            &&& e.subrange(18, 22) == i32_bytes(m->GameStarted_interaction_radius)
        }),
{
    let e = server_message_bytes(m);
    lemma_at_whole(e);
    match m {
        ServerMessageModel::GameStarted {
            map_size,
            circle_radius,
            player_radius,
            player_speed,
            interaction_radius,
            tick_interval_ms,
            flag_status,
            flag_carrier_id,
            flag_x,
            flag_y,
            players,
        } => {
            let h = header(MessageType::GameStarted);
            let p1 = h + i32_bytes(map_size);
            let p2 = p1 + i32_bytes(circle_radius);
            let p3 = p2 + i32_bytes(player_radius);
            let p4 = p3 + i32_bytes(player_speed);
            let p5 = p4 + i32_bytes(interaction_radius);
            let tail = be16_bytes(tick_interval_ms) + seq![flag_status_code(flag_status)]
                + be16_bytes(flag_carrier_id) + i32_bytes(flag_x) + i32_bytes(flag_y) + seq![
                players.len() as u8,
            ] + encode_all(players, player_wire_encoder());
            assert(e =~= p5 + tail);
            lemma_at_split(e, 0, p5, tail);
            lemma_at_split(e, 0, p4, i32_bytes(interaction_radius));
            lemma_at_split(e, 0, p3, i32_bytes(player_speed));
            lemma_at_split(e, 0, p2, i32_bytes(player_radius));
            lemma_at_split(e, 0, p1, i32_bytes(circle_radius));
            lemma_at_split(e, 0, h, i32_bytes(map_size));
            assert(e[0] == e.subrange(0, 2)[0] && e[1] == e.subrange(0, 2)[1]);
        },
        _ => {},
    }
}

/// The decoder takes a game-started message's dimensions from the bytes
/// after the header, four big-endian bytes each, in the order map size,
/// circle radius, player radius, player speed, interaction radius.
#[verifier::spinoff_prover]
pub proof fn lemma_game_started_read_order(b: Seq<u8>)
    ensures
        server_message_of(b) matches Ok(ServerMessageModel::GameStarted {
            map_size,
            circle_radius,
            player_radius,
            player_speed,
            interaction_radius,
            ..
        }) ==> {
            &&& b[0] == 0x24
            &&& map_size == ((b[2] * 0x100_0000 + b[3] * 0x1_0000 + b[4] * 256 + b[5]) as u32) as i32
            &&& circle_radius == ((b[6] * 0x100_0000 + b[7] * 0x1_0000 + b[8] * 256 + b[9]) as u32) as i32
            &&& player_radius == ((b[10] * 0x100_0000 + b[11] * 0x1_0000 + b[12] * 256 + b[13]) as u32) as i32
            &&& player_speed == ((b[14] * 0x100_0000 + b[15] * 0x1_0000 + b[16] * 256 + b[17]) as u32) as i32
            &&& interaction_radius == ((b[18] * 0x100_0000 + b[19] * 0x1_0000 + b[20] * 256
                + b[21]) as u32) as i32
        },
{
    reveal(read_u32_at);
    if b.len() >= 2 {
        lemma_message_type_code_round_trip(MessageType::GameStarted, b[0]);
    }
    if server_message_of(b) is Ok && read_header(b) == Ok::<MessageType, ProtocolError>(
        MessageType::GameStarted,
    ) {
        assert(game_started_of(b) is Ok);
    }
}

// ================================================================= trailing bytes

proof fn lemma_basic_reads_extend(p: Seq<u8>, x: Seq<u8>)
    ensures
        forall|pos: int|
            #![trigger read_u8_at(p + x, pos)]
            read_u8_at(p, pos) is Ok ==> read_u8_at(p + x, pos) == read_u8_at(p, pos),
        forall|pos: int|
            #![trigger read_u16_at(p + x, pos)]
            read_u16_at(p, pos) is Ok ==> read_u16_at(p + x, pos) == read_u16_at(p, pos),
        forall|pos: int|
            #![trigger read_u32_at(p + x, pos)]
            read_u32_at(p, pos) is Ok ==> read_u32_at(p + x, pos) == read_u32_at(p, pos),
        forall|pos: int|
            #![trigger read_i32_at(p + x, pos)]
            read_i32_at(p, pos) is Ok ==> read_i32_at(p + x, pos) == read_i32_at(p, pos),
        forall|pos: int|
            #![trigger read_string_at(p + x, pos)]
            read_string_at(p, pos) is Ok ==> read_string_at(p + x, pos) == read_string_at(p, pos),
{
    reveal(read_u16_at);
    reveal(read_u32_at);
    reveal(read_string_at);
    let c = p + x;
    assert forall|pos: int| read_u8_at(p, pos) is Ok implies #[trigger] read_u8_at(c, pos)
        == read_u8_at(p, pos) by {
        assert(c[pos] == p[pos]);
    }
    assert forall|pos: int| read_u16_at(p, pos) is Ok implies #[trigger] read_u16_at(c, pos)
        == read_u16_at(p, pos) by {
        assert(c[pos] == p[pos] && c[pos + 1] == p[pos + 1]);
    }
    assert forall|pos: int| read_u32_at(p, pos) is Ok implies #[trigger] read_u32_at(c, pos)
        == read_u32_at(p, pos) by {
        assert(c[pos] == p[pos] && c[pos + 1] == p[pos + 1]);
        assert(c[pos + 2] == p[pos + 2] && c[pos + 3] == p[pos + 3]);
    }
    assert forall|pos: int| read_i32_at(p, pos) is Ok implies #[trigger] read_i32_at(c, pos)
        == read_i32_at(p, pos) by {
        assert(c[pos] == p[pos] && c[pos + 1] == p[pos + 1]);
        assert(c[pos + 2] == p[pos + 2] && c[pos + 3] == p[pos + 3]);
    }
    assert forall|pos: int| read_string_at(p, pos) is Ok implies #[trigger] read_string_at(
        c,
        pos,
    ) == read_string_at(p, pos) by {
        assert(c[pos] == p[pos]);
        let start = pos + 1;
        let len = p[pos] as int;
        assert(c.subrange(start, start + len) =~= p.subrange(start, start + len));
    }
}

/// The reader `rd` reads the same from `p` followed by `x` as from `p`,
/// wherever it succeeds on `p`.
pub open spec fn reader_extends<T>(
    rd: spec_fn(Seq<u8>, int) -> Result<(T, int), ProtocolError>,
    p: Seq<u8>,
    x: Seq<u8>,
) -> bool {
    forall|q: int| #![trigger rd(p + x, q)] rd(p, q) is Ok ==> rd(p + x, q) == rd(p, q)
}

proof fn lemma_read_many_extend<T>(
    p: Seq<u8>,
    x: Seq<u8>,
    pos: int,
    n: nat,
    rd: spec_fn(Seq<u8>, int) -> Result<(T, int), ProtocolError>,
)
    requires
        reader_extends(rd, p, x),
    ensures
        read_many(p, pos, n, rd) is Ok ==> read_many(p + x, pos, n, rd) == read_many(
            p,
            pos,
            n,
            rd,
        ),
    decreases n,
{
    if n > 0 {
        lemma_read_many_extend(p, x, pos, (n - 1) as nat, rd);
        match read_many(p, pos, (n - 1) as nat, rd) {
            Ok((xs, q)) => {
                if rd(p, q) is Ok {
                    assert(rd(p + x, q) == rd(p, q));
                }
            },
            Err(_) => {},
        }
    }
}

proof fn lemma_item_readers_extend(p: Seq<u8>, x: Seq<u8>)
    ensures
        reader_extends(lobby_player_reader(), p, x),
        reader_extends(player_wire_reader(), p, x),
        reader_extends(player_state_reader(), p, x),
{
    lemma_basic_reads_extend(p, x);
    assert forall|q: int| lobby_player_reader()(p, q) is Ok implies #[trigger] lobby_player_reader()(
        p + x,
        q,
    ) == lobby_player_reader()(p, q) by {}
    assert forall|q: int| player_wire_reader()(p, q) is Ok implies #[trigger] player_wire_reader()(
        p + x,
        q,
    ) == player_wire_reader()(p, q) by {}
    assert forall|q: int| player_state_reader()(p, q) is Ok implies #[trigger] player_state_reader()(
        p + x,
        q,
    ) == player_state_reader()(p, q) by {}
}

/// Bytes after a server message change nothing: whatever a buffer decodes
/// to, it still decodes to with more bytes behind it.
#[verifier::spinoff_prover]
pub proof fn lemma_server_message_ignores_trailing(p: Seq<u8>, x: Seq<u8>)
    requires
        server_message_of(p) is Ok,
    ensures
        server_message_of(p + x) == server_message_of(p),
{
    let c = p + x;
    reveal(read_u16_at);
    reveal(read_u32_at);
    lemma_basic_reads_extend(p, x);
    lemma_item_readers_extend(p, x);
    assert(c[0] == p[0] && c[1] == p[1]);
    if p.len() >= 4 {
        assert(c[2] == p[2] && c[3] == p[3]);
        lemma_read_many_extend(p, x, 4, p[3] as nat, lobby_player_reader());
    }
    if p.len() >= 36 {
        assert(c[35] == p[35]);
        lemma_read_many_extend(p, x, 36, p[35] as nat, player_wire_reader());
    }
    if p.len() >= 18 {
        assert(c[17] == p[17]);
        lemma_read_many_extend(p, x, 18, p[17] as nat, player_state_reader());
    }
    assert(read_header(c) == read_header(p));
    match read_header(p) {
        Ok(t) => match t {
            MessageType::JoinAccepted => assert(join_accepted_of(c) == join_accepted_of(p)),
            MessageType::JoinRejected => assert(join_rejected_of(c) == join_rejected_of(p)),
            MessageType::LobbyState => assert(lobby_state_of(c) == lobby_state_of(p)),
            MessageType::GameCountdown => assert(game_countdown_of(c) == game_countdown_of(p)),
            MessageType::GameStarted => assert(game_started_of(c) == game_started_of(p)),
            MessageType::GameState => assert(game_state_of(c) == game_state_of(p)),
            MessageType::FlagPickedUp => assert(flag_picked_up_of(c) == flag_picked_up_of(p)),
            MessageType::FlagStolen => assert(flag_stolen_of(c) == flag_stolen_of(p)),
            MessageType::PlayerDisconnected => assert(player_disconnected_of(c)
                == player_disconnected_of(p)),
            MessageType::GameOver => assert(game_over_of(c) == game_over_of(p)),
            MessageType::Error => assert(error_message_of(c) == error_message_of(p)),
            _ => {},
        },
        Err(_) => {},
    }
}

/// Bytes after a client message change nothing either.
pub proof fn lemma_client_message_ignores_trailing(p: Seq<u8>, x: Seq<u8>)
    requires
        client_message_of(p) is Ok,
    ensures
        client_message_of(p + x) == client_message_of(p),
{
    let c = p + x;
    lemma_basic_reads_extend(p, x);
    assert(c[0] == p[0] && c[1] == p[1]);
}

/// Decoding the bytes of a discovery response gives that response back,
/// provided the server name fits in 255 bytes.
pub proof fn lemma_discover_response_round_trip(m: DiscoverInfoModel)
    requires
        fits_wire(m.server_name),
    ensures
        discover_packet_of(discover_response_bytes(m)) == Ok::<
            Option<DiscoverInfoModel>,
            ProtocolError,
        >(Some(m)),
{
    let b = discover_response_bytes(m);
    lemma_at_whole(b);
    let h = header(MessageType::DiscoverResponse);
    let p1 = h + be16_bytes(m.game_id);
    let p2 = p1 + string_bytes(m.server_name);
    let p3 = p2 + be16_bytes(m.tcp_port);
    let p4 = p3 + seq![game_phase_code(m.state)];
    let p5 = p4 + be16_bytes(m.player_count);
    lemma_at_split(b, 0, p5, be16_bytes(m.maximum_players));
    lemma_at_split(b, 0, p4, be16_bytes(m.player_count));
    lemma_at_split(b, 0, p3, seq![game_phase_code(m.state)]);
    lemma_at_split(b, 0, p2, be16_bytes(m.tcp_port));
    lemma_at_split(b, 0, p1, string_bytes(m.server_name));
    lemma_at_split(b, 0, h, be16_bytes(m.game_id));
    lemma_read_u16(b, 2, m.game_id);
    lemma_read_string(b, 4, m.server_name);
    let q: int = 4 + string_bytes(m.server_name).len() as int;
    lemma_read_u16(b, q, m.tcp_port);
    lemma_read_u8(b, q + 2, game_phase_code(m.state));
    lemma_read_u16(b, q + 3, m.player_count);
    lemma_read_u16(b, q + 5, m.maximum_players);
}

/// A discovery response cut short is refused: decoding its encoding cut
/// anywhere after the header fails because the bytes end early.
pub proof fn lemma_discover_response_truncated(m: DiscoverInfoModel, k: int)
    requires
        fits_wire(m.server_name),
        2 <= k < discover_response_bytes(m).len(),
    ensures
        ends_early(discover_packet_of(discover_response_bytes(m).take(k))),
{
    let b = discover_response_bytes(m);
    lemma_at_whole(b);
    let h = header(MessageType::DiscoverResponse);
    let p1 = h + be16_bytes(m.game_id);
    let p2 = p1 + string_bytes(m.server_name);
    let p3 = p2 + be16_bytes(m.tcp_port);
    let p4 = p3 + seq![game_phase_code(m.state)];
    let p5 = p4 + be16_bytes(m.player_count);
    lemma_at_split(b, 0, p5, be16_bytes(m.maximum_players));
    lemma_at_split(b, 0, p4, be16_bytes(m.player_count));
    lemma_at_split(b, 0, p3, seq![game_phase_code(m.state)]);
    lemma_at_split(b, 0, p2, be16_bytes(m.tcp_port));
    lemma_at_split(b, 0, p1, string_bytes(m.server_name));
    lemma_at_split(b, 0, h, be16_bytes(m.game_id));
    lemma_message_type_code_round_trip(MessageType::DiscoverResponse, 0);
    lemma_game_phase_code_round_trip(m.state, 0);
    assert(b[0] == h[0] && b[1] == h[1]);
    lemma_read_u16_upto(b, 2, m.game_id, k);
    lemma_read_string_upto(b, 4, m.server_name, k);
    let q: int = 4 + string_bytes(m.server_name).len() as int;
    lemma_read_u16_upto(b, q, m.tcp_port, k);
    lemma_read_u8_upto(b, q + 2, game_phase_code(m.state), k);
    lemma_read_u16_upto(b, q + 3, m.player_count, k);
    lemma_read_u16_upto(b, q + 5, m.maximum_players, k);
}

/// The two bytes in front of a frame give back the payload's length, and
/// the payload follows them.
pub proof fn lemma_frame_round_trip(payload: Seq<u8>)
    requires
        payload.len() <= 0xFFFF,
    ensures
        ({
            let f = be16_bytes(payload.len() as u16) + payload;
            &&& f.len() == payload.len() + 2
            &&& be16_value(f[0], f[1]) == payload.len()
            &&& f.subrange(2, f.len() as int) == payload
        }),
{
    let f = be16_bytes(payload.len() as u16) + payload;
    reveal(be16_bytes);
    assert(f.subrange(2, f.len() as int) =~= payload);
}

} // verus!
