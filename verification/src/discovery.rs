//! UDP discovery: the request packet, the server's announcement, and the
//! broadcast addresses a request is sent to.
use vstd::prelude::*;
use crate::codes::{game_phase_code, game_phase_of, message_type_of, GamePhase, MessageType,
    PROTOCOL_VERSION};
use crate::encode::write_u8;
use crate::messages::header;
use crate::wire::{
    be16_bytes, fits_wire, read_string_at, read_string_from, read_u16_at, read_u16_from,
    read_u8_at, read_u8_from, string_bytes, write_string, write_u16, ProtocolError,
};

verus! {

/// What a server announces in answer to a discovery request.
#[derive(Debug, Clone)]
pub struct DiscoverInfo {
    pub game_id: u16,
    pub server_name: String,
    pub tcp_port: u16,
    pub state: GamePhase,
    pub player_count: u16,
    pub maximum_players: u16,
}

pub struct DiscoverInfoModel {
    pub game_id: u16,
    pub server_name: Seq<char>,
    pub tcp_port: u16,
    pub state: GamePhase,
    pub player_count: u16,
    pub maximum_players: u16,
}

impl View for DiscoverInfo {
    type V = DiscoverInfoModel;

    open spec fn view(&self) -> DiscoverInfoModel {
        DiscoverInfoModel {
            game_id: self.game_id,
            server_name: self.server_name@,
            tcp_port: self.tcp_port,
            state: self.state,
            player_count: self.player_count,
            maximum_players: self.maximum_players,
        }
    }
}

/// The bytes of a discovery response.
pub open spec fn discover_response_bytes(m: DiscoverInfoModel) -> Seq<u8> {
    header(MessageType::DiscoverResponse) + be16_bytes(m.game_id) + string_bytes(m.server_name)
        + be16_bytes(m.tcp_port) + seq![game_phase_code(m.state)] + be16_bytes(m.player_count)
        + be16_bytes(m.maximum_players)
}

/// The fields of a discovery response, read from position 2.
pub open spec fn discover_response_of(b: Seq<u8>) -> Result<DiscoverInfoModel, ProtocolError> {
    match read_u16_at(b, 2) {
        Err(e) => Err(e),
        Ok((game_id, p1)) => match read_string_at(b, p1) {
            Err(e) => Err(e),
            Ok((server_name, p2)) => match read_u16_at(b, p2) {
                Err(e) => Err(e),
                Ok((tcp_port, p3)) => match read_u8_at(b, p3) {
                    Err(e) => Err(e),
                    Ok((v, p4)) => match game_phase_of(v) {
                        None => Err(ProtocolError::InvalidGamePhase),
                        Some(state) => match read_u16_at(b, p4) {
                            Err(e) => Err(e),
                            Ok((player_count, p5)) => match read_u16_at(b, p5) {
                                Err(e) => Err(e),
                                Ok((maximum_players, _)) => Ok(
                                    DiscoverInfoModel {
                                        game_id,
                                        server_name,
                                        tcp_port,
                                        state,
                                        player_count,
                                        maximum_players,
                                    },
                                ),
                            },
                        },
                    },
                },
            },
        },
    }
}

/// What `read_discover_packet` gives for a UDP packet: nothing for short
/// packets, other versions, requests and other message types; an error for
/// an unknown type byte; the announcement for a response.
pub open spec fn discover_packet_of(b: Seq<u8>) -> Result<Option<DiscoverInfoModel>, ProtocolError> {
    if b.len() < 2 {
        Ok(None)
    } else {
        match message_type_of(b[0]) {
            None => Err(ProtocolError::UnknownUdpMessageType),
            Some(t) => if b[1] != PROTOCOL_VERSION {
                Ok(None)
            } else if t == MessageType::DiscoverResponse {
                match discover_response_of(b) {
                    Ok(m) => Ok(Some(m)),
                    Err(e) => Err(e),
                }
            } else {
                Ok(None)
            },
        }
    }
}

/// The packet a client broadcasts to find servers.
pub fn discover_request_packet() -> (r: Vec<u8>)
    ensures
        r@ == header(MessageType::DiscoverRequest),
{
    let mut out: Vec<u8> = Vec::new();
    write_u8(&mut out, MessageType::DiscoverRequest.to_u8());
    write_u8(&mut out, PROTOCOL_VERSION);
    assert(out@ =~= header(MessageType::DiscoverRequest));
    out
}

/// The bytes a server sends back to a discovery request.
pub fn encode_discover_response(
    game_id: u16,
    server_name: &str,
    tcp_port: u16,
    state: GamePhase,
    player_count: u16,
    maximum_players: u16,
) -> (r: Vec<u8>)
    ensures
        r@ == discover_response_bytes(
            DiscoverInfoModel {
                game_id,
                server_name: server_name@,
                tcp_port,
                state,
                player_count,
                maximum_players,
            },
        ),
{
    let mut out: Vec<u8> = Vec::new();
    write_u8(&mut out, MessageType::DiscoverResponse.to_u8());
    write_u8(&mut out, PROTOCOL_VERSION);
    write_u16(&mut out, game_id);
    write_string(&mut out, server_name);
    write_u16(&mut out, tcp_port);
    write_u8(&mut out, state.to_u8());
    write_u16(&mut out, player_count);
    write_u16(&mut out, maximum_players);
    assert(out@ =~= discover_response_bytes(
        DiscoverInfoModel {
            game_id,
            server_name: server_name@,
            tcp_port,
            state,
            player_count,
            maximum_players,
        },
    ));
    out
}

fn read_discover_response(buf: &[u8]) -> (r: Result<DiscoverInfo, ProtocolError>)
    ensures
        match discover_response_of(buf@) {
            Ok(m) => r matches Ok(v) && v@ == m,
            Err(e) => r matches Err(f) && f == e,
        },
{
    let mut cursor: usize = 2;
    let game_id = match read_u16_from(buf, &mut cursor) {
        Ok(v) => v,
        Err(e) => return Err(e),
    };
    let server_name = match read_string_from(buf, &mut cursor) {
        Ok(v) => v,
        Err(e) => return Err(e),
    };
    let tcp_port = match read_u16_from(buf, &mut cursor) {
        Ok(v) => v,
        Err(e) => return Err(e),
    };
    let v = match read_u8_from(buf, &mut cursor) {
        Ok(v) => v,
        Err(e) => return Err(e),
    };
    let state = match GamePhase::from_u8(v) {
        Some(s) => s,
        None => return Err(ProtocolError::InvalidGamePhase),
    };
    let player_count = match read_u16_from(buf, &mut cursor) {
        Ok(v) => v,
        Err(e) => return Err(e),
    };
    let maximum_players = match read_u16_from(buf, &mut cursor) {
        Ok(v) => v,
        Err(e) => return Err(e),
    };
    Ok(DiscoverInfo { game_id, server_name, tcp_port, state, player_count, maximum_players })
}

/// Reads a UDP discovery packet.
pub fn read_discover_packet(buf: &[u8]) -> (r: Result<Option<DiscoverInfo>, ProtocolError>)
    ensures
        match discover_packet_of(buf@) {
            Ok(Some(m)) => r matches Ok(Some(v)) && v@ == m,
            Ok(None) => r matches Ok(None),
            Err(e) => r matches Err(f) && f == e,
        },
{
    if buf.len() < 2 {
        return Ok(None);
    }
    let message_type = match MessageType::from_u8(buf[0]) {
        Some(t) => t,
        None => return Err(ProtocolError::UnknownUdpMessageType),
    };
    if buf[1] != PROTOCOL_VERSION {
        return Ok(None);
    }
    match message_type {
        MessageType::DiscoverResponse => match read_discover_response(buf) {
            Ok(info) => Ok(Some(info)),
            Err(e) => Err(e),
        },
        _ => Ok(None),
    }
}

// ================================================================= targets

/// What the logic needs to know of a network interface: whether it is a
/// loopback interface, and its IPv4 address and netmask (as big-endian
/// numbers) when it has one.
#[derive(Debug, Clone, Copy)]
pub struct InterfaceAddr {
    pub is_loopback: bool,
    pub ipv4: Option<(u32, u32)>,
}

/// The limited broadcast address 255.255.255.255.
pub const GLOBAL_BROADCAST: u32 = 0xFFFF_FFFF;

/// The directed broadcast address of an interface (`ip | !netmask`), for a
/// non-loopback IPv4 interface whose netmask is not all ones.
pub open spec fn directed_broadcast(i: InterfaceAddr) -> Option<u32> {
    if i.is_loopback {
        None
    } else {
        match i.ipv4 {
            Some((ip, mask)) => if mask == GLOBAL_BROADCAST {
                None
            } else {
                Some(ip | !mask)
            },
            None => None,
        }
    }
}

/// Every address a discovery request goes to: the global broadcast, and the
/// directed broadcast of each interface that has one.
pub open spec fn broadcast_target_set(ifaces: Seq<InterfaceAddr>) -> Set<u32> {
    Set::new(
        |t: u32|
            t == GLOBAL_BROADCAST || exists|i: int|
                0 <= i < ifaces.len() && #[trigger] directed_broadcast(ifaces[i]) == Some(t),
    )
}

fn contains_u32(v: &Vec<u32>, x: u32) -> (r: bool)
    ensures
        r == v@.contains(x),
{
    let mut i: usize = 0;
    while i < v.len()
        invariant
            i <= v.len(),
            forall|j: int| 0 <= j < i ==> v@[j] != x,
        decreases v.len() - i,
    {
        if v[i] == x {
            return true;
        }
        i = i + 1;
    }
    false
}

/// The addresses a discovery request is sent to, each once.
pub fn broadcast_targets_from(ifaces: &Vec<InterfaceAddr>) -> (r: Vec<u32>)
    ensures
        r@.no_duplicates(),
        r@.to_set() == broadcast_target_set(ifaces@),
{
    let mut targets: Vec<u32> = Vec::new();
    targets.push(GLOBAL_BROADCAST);
    assert(targets@[0] == GLOBAL_BROADCAST);
    let mut k: usize = 0;
    while k < ifaces.len()
        invariant
            k <= ifaces.len(),
            targets@.no_duplicates(),
            targets@.contains(GLOBAL_BROADCAST),
            forall|t: u32|
                #[trigger] targets@.contains(t) ==> t == GLOBAL_BROADCAST || exists|i: int|
                    0 <= i < k && #[trigger] directed_broadcast(ifaces@[i]) == Some(t),
            forall|i: int|
                0 <= i < k ==> (#[trigger] directed_broadcast(ifaces@[i]) matches Some(t)
                    ==> targets@.contains(t)),
        decreases ifaces.len() - k,
    {
        let iface = ifaces[k];
        let candidate: Option<u32> = if iface.is_loopback {
            None
        } else {
            match iface.ipv4 {
                Some((ip, mask)) => if mask == GLOBAL_BROADCAST {
                    None
                } else {
                    Some(ip | !mask)
                },
                None => None,
            }
        };
        assert(candidate == directed_broadcast(ifaces@[k as int]));
        if let Some(t) = candidate {
            if !contains_u32(&targets, t) {
                let ghost before = targets@;
                targets.push(t);
                assert(targets@[targets@.len() - 1] == t);
                assert forall|x: u32| before.contains(x) implies #[trigger] targets@.contains(x) by {
                    let j = choose|j: int| 0 <= j < before.len() && before[j] == x;
                    assert(targets@[j] == x);
                }
                assert forall|x: u32| #[trigger] targets@.contains(x) implies x == t
                    || before.contains(x) by {
                    let j = choose|j: int| 0 <= j < targets@.len() && targets@[j] == x;
                    if j < before.len() {
                        assert(before[j] == x);
                    }
                }
                assert forall|a: int, b: int|
                    0 <= a < b < targets@.len() implies targets@[a] != targets@[b] by {
                    if b == before.len() {
                        assert(before.contains(targets@[a]));
                    }
                }
            }
        }
        k = k + 1;
    }
    assert(targets@.to_set() =~= broadcast_target_set(ifaces@));
    targets
}

/// The discovery replies kept so far, each by its game id, the address it
/// came from (as a 128-bit number) and the TCP port it names.
#[derive(Debug)]
pub struct ReplyFilter {
    pub seen: Vec<(u16, u128, u16)>,
}

impl ReplyFilter {
    pub fn new() -> (r: ReplyFilter)
        ensures
            r.seen@.len() == 0,
    {
        ReplyFilter { seen: Vec::new() }
    }

    /// Whether a reply with this key is the first of its kind; a first one
    /// is recorded, a repeated one changes nothing.
    pub fn first_seen(&mut self, key: (u16, u128, u16)) -> (r: bool)
        ensures
            r == !old(self).seen@.contains(key),
            final(self).seen@ == if r {
                old(self).seen@.push(key)
            } else {
                old(self).seen@
            },
    {
        let mut i: usize = 0;
        while i < self.seen.len()
            invariant
                i <= self.seen@.len(),
                self.seen@ == old(self).seen@,
                forall|j: int| 0 <= j < i ==> self.seen@[j] != key,
            decreases self.seen.len() - i,
        {
            let (g, a, p) = self.seen[i];
            if g == key.0 && a == key.1 && p == key.2 {
                assert(old(self).seen@[i as int] == key);
                return false;
            }
            i = i + 1;
        }
        self.seen.push(key);
        true
    }
}

/// Calls `if_addrs::get_if_addrs` and keeps, for each interface, whether it
/// is a loopback interface and, for an IPv4 one, its address and netmask as
/// numbers. Nothing is claimed of the list: it is what the machine reports
/// at the time of the call (`None` when the call fails).
#[verifier::external_body]
fn local_interfaces() -> (r: Option<Vec<InterfaceAddr>>) {
    match if_addrs::get_if_addrs() {
        Ok(list) => Some(
            list.iter().map(
                |i| InterfaceAddr {
                    is_loopback: i.is_loopback(),
                    ipv4: match &i.addr {
                        if_addrs::IfAddr::V4(v4) => Some((u32::from(v4.ip), u32::from(v4.netmask))),
                        _ => None,
                    },
                },
            ).collect(),
        ),
        Err(_) => None,
    }
}

/// The broadcast addresses of this machine a discovery request goes to:
/// always the global broadcast, plus the directed broadcast of each
/// interface the machine reports; each address once.
pub fn discovery_broadcast_targets() -> (r: Vec<u32>)
    ensures
        r@.no_duplicates(),
        r@.contains(GLOBAL_BROADCAST),
{
    let ifaces = match local_interfaces() {
        Some(list) => list,
        None => Vec::new(),
    };
    let r = broadcast_targets_from(&ifaces);
    assert(broadcast_target_set(ifaces@).contains(GLOBAL_BROADCAST));
    assert(r@.to_set().contains(GLOBAL_BROADCAST));
    r
}

} // verus!
