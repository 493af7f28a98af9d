//! The server's decisions around the game: who may join, the countdown, and
//! when to answer a discovery request.
use vstd::prelude::*;
use vstd::string::*;
use crate::codes::{GamePhase, JoinRejectReason, MessageType, PROTOCOL_VERSION, message_type_code};
use crate::discovery::{discover_response_bytes, encode_discover_response, DiscoverInfoModel};
use crate::game::GameSession;

verus! {

/// The longest name a player may take, in characters.
pub const MAX_NAME_CHARS: usize = 20;

/// The answer to a join request.
#[derive(Debug)]
pub enum JoinDecision {
    /// The connection has already joined: an error goes back.
    AlreadyJoined,
    Rejected(JoinRejectReason),
    /// The player joins under this (trimmed) name.
    Accepted(String),
}

/// The characters with the Unicode `White_Space` property, those that
/// `char::is_whitespace` accepts.
pub open spec fn is_white_space(c: char) -> bool {
    let v = c as u32;
    ||| 0x09 <= v <= 0x0D
    ||| v == 0x20
    ||| v == 0x85
    ||| v == 0xA0
    ||| v == 0x1680
    ||| 0x2000 <= v <= 0x200A
    ||| v == 0x2028
    ||| v == 0x2029
    ||| v == 0x202F
    ||| v == 0x205F
    ||| v == 0x3000
}

/// The string without its leading white space.
pub open spec fn trim_start(s: Seq<char>) -> Seq<char>
    decreases s.len(),
{
    if s.len() > 0 && is_white_space(s[0]) {
        trim_start(s.drop_first())
    } else {
        s
    }
}

/// The string without its trailing white space.
pub open spec fn trim_end(s: Seq<char>) -> Seq<char>
    decreases s.len(),
{
    if s.len() > 0 && is_white_space(s.last()) {
        trim_end(s.drop_last())
    } else {
        s
    }
}

/// The string without leading and trailing white space.
pub open spec fn trimmed(s: Seq<char>) -> Seq<char> {
    trim_end(trim_start(s))
}

/// Calls `str::trim`. Claimed, as its documentation says: the result is the
/// string without leading and trailing white space (Unicode `White_Space`).
#[verifier::external_body]
fn trim_str(s: &str) -> (r: &str)
    ensures
        r@ == trimmed(s@),
{
    s.trim()
}

/// The answer to a join request with `trimmed_name` already trimmed: an
/// error when the connection already joined; a rejection when the game is
/// not waiting for players, when the name is empty or longer than 20
/// characters, or when the lobby is full; otherwise acceptance.
pub open spec fn join_verdict(
    already_joined: bool,
    state: GamePhase,
    trimmed_name: Seq<char>,
    player_count: nat,
    maximum_players: u16,
) -> Option<Option<JoinRejectReason>> {
    if already_joined {
        None
    } else if state != GamePhase::Waiting {
        Some(Some(JoinRejectReason::GameAlreadyStarted))
    } else if trimmed_name.len() == 0 || trimmed_name.len() > MAX_NAME_CHARS {
        Some(Some(JoinRejectReason::InvalidName))
    } else if (player_count as u16) >= maximum_players {
        Some(Some(JoinRejectReason::GameFull))
    } else {
        Some(None)
    }
}

/// Names of any length from 1 to 20 characters are welcome: a connection
/// that has not joined, asking while the game waits and the lobby has room,
/// is accepted exactly when its trimmed name has between 1 and 20
/// characters, and refused for an invalid name otherwise.
pub proof fn lemma_join_name_rule(
    trimmed_name: Seq<char>,
    player_count: nat,
    maximum_players: u16,
)
    requires
        player_count < maximum_players,
    ensures
        join_verdict(false, GamePhase::Waiting, trimmed_name, player_count, maximum_players) == if 1
            <= trimmed_name.len() <= 20 {
            Some(None::<JoinRejectReason>)
        } else {
            Some(Some(JoinRejectReason::InvalidName))
        },
{
}

/// The verdict a decision stands for: `None` for an error, `Some(None)` for
/// acceptance, `Some(Some(reason))` for a rejection.
pub open spec fn decision_verdict(d: JoinDecision) -> Option<Option<JoinRejectReason>> {
    match d {
        JoinDecision::AlreadyJoined => None,
        JoinDecision::Rejected(reason) => Some(Some(reason)),
        JoinDecision::Accepted(_) => Some(None),
    }
}

/// What the countdown does when its second comes: announce the seconds
/// left, then either go on with one second less (never below 0) or, at the
/// last second, start the game.
#[derive(Debug, Clone, Copy, PartialEq, Eq, Structural)]
pub struct CountdownStep {
    pub announce: u8,
    /// The seconds left for the next step; `None` when the game starts now.
    pub next: Option<u8>,
}

/// The seconds left after the announcement of `s`: none at the last second
/// (the game starts), one less otherwise, never below 0.
pub open spec fn countdown_next(s: u8) -> Option<u8> {
    if s == 1 {
        None
    } else if s == 0 {
        Some(0u8)
    } else {
        Some((s - 1) as u8)
    }
}

/// The seconds left after `n` countdown steps from `k`; `None` once the
/// game has started.
pub open spec fn countdown_after(k: u8, n: nat) -> Option<u8>
    decreases n,
{
    if n == 0 {
        Some(k)
    } else {
        match countdown_after(k, (n - 1) as nat) {
            None => None,
            Some(s) => countdown_next(s),
        }
    }
}

/// A countdown from `k` seconds (at least 1) announces `k`, `k - 1`, ...,
/// `1`, one per step, and the game starts right after the announcement of
/// 1.
pub proof fn lemma_countdown_runs_down(k: u8, n: nat)
    requires
        1 <= k,
        n <= k,
    ensures
        n < k ==> countdown_after(k, n) == Some((k - n) as u8),
        n == k ==> countdown_after(k, n) is None,
    decreases n,
{
    if n > 0 {
        lemma_countdown_runs_down(k, (n - 1) as nat);
    }
}

pub fn countdown_step(seconds_remaining: u8) -> (r: CountdownStep)
    ensures
        r.announce == seconds_remaining,
        r.next == countdown_next(seconds_remaining),
{
    if seconds_remaining == 1 {
        CountdownStep { announce: seconds_remaining, next: None }
    } else {
        CountdownStep { announce: seconds_remaining, next: Some(seconds_remaining.saturating_sub(1)) }
    }
}

/// The countdown's step when its time comes: from the seconds scheduled
/// (`pending`), or, when nothing is scheduled yet, from the configured
/// length of the countdown.
pub fn countdown_poll(pending: Option<u8>, countdown_seconds: u8) -> (r: CountdownStep)
    ensures
        r.announce == match pending {
            Some(s) => s,
            None => countdown_seconds,
        },
        r.next == countdown_next(r.announce),
{
    match pending {
        Some(s) => countdown_step(s),
        None => countdown_step(countdown_seconds),
    }
}

impl GameSession {
    /// Decides on a join request with the name as given: trims it, then
    /// applies `join_verdict`. An accepted player gets the trimmed name.
    pub fn join_decision(&self, already_joined: bool, name: &str, maximum_players: u16) -> (r:
        JoinDecision)
        ensures
            decision_verdict(r) == join_verdict(
                already_joined,
                self.state,
                trimmed(name@),
                self.players@.len(),
                maximum_players,
            ),
            r matches JoinDecision::Accepted(n) ==> n@ == trimmed(name@),
    {
        let trimmed_name = trim_str(name);
        if already_joined {
            return JoinDecision::AlreadyJoined;
        }
        if self.state != GamePhase::Waiting {
            return JoinDecision::Rejected(JoinRejectReason::GameAlreadyStarted);
        }
        let chars = trimmed_name.unicode_len();
        if chars == 0 || chars > MAX_NAME_CHARS {
            return JoinDecision::Rejected(JoinRejectReason::InvalidName);
        }
        if self.players.len() as u16 >= maximum_players {
            return JoinDecision::Rejected(JoinRejectReason::GameFull);
        }
        JoinDecision::Accepted(trimmed_name.to_owned())
    }

    /// The answer to a UDP packet on the discovery port: a discovery
    /// response, but only to a well-formed discovery request and only while
    /// the game waits for players.
    pub fn discovery_reply(&self, packet: &[u8], tcp_port: u16, maximum_players: u16) -> (r:
        Option<Vec<u8>>)
        ensures
            match r {
                Some(bytes) => packet@.len() >= 2 && packet@[0] == message_type_code(
                    MessageType::DiscoverRequest,
                ) && packet@[1] == PROTOCOL_VERSION && self.state == GamePhase::Waiting && bytes@
                    == discover_response_bytes(
                    DiscoverInfoModel {
                        game_id: self.game_id,
                        server_name: self.server_name@,
                        tcp_port,
                        state: self.state,
                        player_count: self.players@.len() as u16,
                        maximum_players,
                    },
                ),
                None => !(packet@.len() >= 2 && packet@[0] == message_type_code(
                    MessageType::DiscoverRequest,
                ) && packet@[1] == PROTOCOL_VERSION && self.state == GamePhase::Waiting),
            },
    {
        if packet.len() < 2 || packet[0] != MessageType::DiscoverRequest.to_u8() || packet[1]
            != PROTOCOL_VERSION {
            return None;
        }
        if self.state != GamePhase::Waiting {
            return None;
        }
        Some(
            encode_discover_response(
                self.game_id,
                self.server_name.as_str(),
                tcp_port,
                self.state,
                self.players.len() as u16,
                maximum_players,
            ),
        )
    }
}

} // verus!
