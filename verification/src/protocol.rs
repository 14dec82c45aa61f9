//! What players and the lobby say to each other.
//!
//! Coordinates are carried as the bits of single-precision numbers: the rules pass
//! them on and never calculate with them.

use vstd::prelude::*;

verus! {

/// A planet-local position, each coordinate as the bits of a single-precision number.
#[derive(Clone, Copy, Debug, PartialEq, Eq, Structural)]
pub struct Spot {
    pub x: u32,
    pub y: u32,
    pub z: u32,
}

/// Whether the bits of a single-precision number are those of a finite one: its
/// exponent field is not all ones.
pub open spec fn is_finite(bits: u32) -> bool {
    (bits >> 23) & 0xff != 0xff
}

impl Spot {
    pub open spec fn finite(self) -> bool {
        is_finite(self.x) && is_finite(self.y) && is_finite(self.z)
    }

    /// Whether every coordinate is a finite number.
    pub fn all_finite(&self) -> (r: bool)
        ensures
            r == self.finite(),
    {
        (self.x >> 23) & 0xff != 0xff && (self.y >> 23) & 0xff != 0xff && (self.z >> 23) & 0xff
            != 0xff
    }
}

/// `x` moved into the range from `low` to `high`.
pub open spec fn clamp(x: int, low: int, high: int) -> int {
    if x < low {
        low
    } else if x > high {
        high
    } else {
        x
    }
}

/// How many rounds a game has, and how long each lasts.
#[derive(Clone, Copy, Debug, PartialEq, Eq, Structural)]
pub struct Config {
    pub rounds: u32,
    pub round_secs: u32,
}

impl Default for Config {
    fn default() -> (c: Self)
        ensures
            c == (Config { rounds: 3, round_secs: 90 }),
    {
        Config { rounds: 3, round_secs: 90 }
    }
}

impl Config {
    /// Within what a host may choose: 1 to 10 rounds of 10 seconds to 5 minutes.
    pub open spec fn valid(self) -> bool {
        1 <= self.rounds <= 10 && 10 <= self.round_secs <= 300
    }

    pub open spec fn in_range(self) -> Config {
        Config {
            rounds: clamp(self.rounds as int, 1, 10) as u32,
            round_secs: clamp(self.round_secs as int, 10, 300) as u32,
        }
    }

    pub fn clamped(self) -> (c: Config)
        ensures
            c == self.in_range(),
            c.valid(),
    {
        let rounds: u32 = if self.rounds < 1 {
            1
        } else if self.rounds > 10 {
            10
        } else {
            self.rounds
        };
        let round_secs: u32 = if self.round_secs < 10 {
            10
        } else if self.round_secs > 300 {
            300
        } else {
            self.round_secs
        };
        Config { rounds, round_secs }
    }
}

/// Settings already in range are left as they are, so clamping twice is clamping once.
pub proof fn law_clamping_keeps_valid_settings(c: Config)
    ensures
        c.in_range().valid(),
        c.valid() ==> c.in_range() == c,
        c.in_range().in_range() == c.in_range(),
{
}

/// Settings out of range are moved no further than to the nearest ones that are in it, each
/// for itself.
pub proof fn law_clamping_is_nearest(c: Config, other: Config)
    requires
        other.valid(),
    ensures
        ({
            let d = c.in_range();
            &&& c.rounds <= d.rounds ==> d.rounds <= other.rounds || d.rounds == c.rounds
            &&& c.rounds >= d.rounds ==> d.rounds >= other.rounds || d.rounds == c.rounds
            &&& c.round_secs <= d.round_secs ==> d.round_secs <= other.round_secs || d.round_secs
                == c.round_secs
            &&& c.round_secs >= d.round_secs ==> d.round_secs >= other.round_secs || d.round_secs
                == c.round_secs
        }),
        c.valid() <==> 1 <= c.rounds && c.rounds <= 10 && 10 <= c.round_secs && c.round_secs <= 300,
{
}

/// A place is finite where each of its coordinates is: its exponent is not the highest.
pub proof fn law_places_are_finite(spot: Spot)
    ensures
        spot.finite() <==> (spot.x & 0x7fff_ffff) < 0x7f80_0000 && (spot.y & 0x7fff_ffff)
            < 0x7f80_0000 && (spot.z & 0x7fff_ffff) < 0x7f80_0000,
{
    lemma_finite(spot.x);
    lemma_finite(spot.y);
    lemma_finite(spot.z);
}

proof fn lemma_finite(bits: u32)
    ensures
        is_finite(bits) <==> (bits & 0x7fff_ffff) < 0x7f80_0000,
{
    assert(((bits >> 23) & 0xff != 0xff) <==> (bits & 0x7fff_ffff) < 0x7f80_0000) by (bit_vector);
}

#[derive(Clone, Debug)]
pub struct PlayerInfo {
    pub id: u32,
    pub name: String,
    pub is_host: bool,
    /// False while the player is in their disconnect grace period.
    pub connected: bool,
}

pub struct PlayerInfoView {
    pub id: int,
    pub name: Seq<char>,
    pub is_host: bool,
    pub connected: bool,
}

impl View for PlayerInfo {
    type V = PlayerInfoView;

    open spec fn view(&self) -> PlayerInfoView {
        PlayerInfoView {
            id: self.id as int,
            name: self.name@,
            is_host: self.is_host,
            connected: self.connected,
        }
    }
}

pub open spec fn infos(s: Seq<PlayerInfo>) -> Seq<PlayerInfoView> {
    s.map_values(|p: PlayerInfo| p@)
}

#[derive(Clone, Debug)]
pub enum ClientMsg {
    /// Create a lobby and become its host.
    Create { name: String },
    /// Join an existing lobby by code.
    Join { code: String, name: String },
    /// Host only: change game settings while in the lobby.
    Configure { rounds: u32, round_secs: u32 },
    /// Host only: start the game.
    Start,
    /// Resume a session after a dropped connection or page refresh.
    Rejoin { code: String, token: String },
    /// Give up the seat for good.
    Leave,
    /// Claim Waldo is at this planet-local position; the lobby judges.
    Click { pos: Spot },
}

pub enum ClientMsgView {
    Create { name: Seq<char> },
    Join { code: Seq<char>, name: Seq<char> },
    Configure { rounds: u32, round_secs: u32 },
    Start,
    Rejoin { code: Seq<char>, token: Seq<char> },
    Leave,
    Click { pos: Spot },
}

impl View for ClientMsg {
    type V = ClientMsgView;

    open spec fn view(&self) -> ClientMsgView {
        match *self {
            ClientMsg::Create { name } => ClientMsgView::Create { name: name@ },
            ClientMsg::Join { code, name } => ClientMsgView::Join { code: code@, name: name@ },
            ClientMsg::Configure { rounds, round_secs } => ClientMsgView::Configure {
                rounds,
                round_secs,
            },
            ClientMsg::Start => ClientMsgView::Start,
            ClientMsg::Rejoin { code, token } => ClientMsgView::Rejoin { code: code@, token: token@ },
            ClientMsg::Leave => ClientMsgView::Leave,
            ClientMsg::Click { pos } => ClientMsgView::Click { pos },
        }
    }
}

/// One player's line in a round's results.
#[derive(Clone, Debug)]
pub struct RoundEntry {
    pub id: u32,
    pub name: String,
    pub found: bool,
    /// Finish order for Waldo this round (1-based), 0 if never found.
    pub rank: u32,
    /// ms into the round when Waldo was clicked, -1 if never found.
    pub time_ms: i64,
    pub misses: u32,
    /// Net cast bonus (Wenda/Woof/Wizard minus Odlaw), can be negative.
    pub bonus: i32,
    pub score: u32,
    pub total: u32,
}

pub struct RoundEntryView {
    pub id: int,
    pub name: Seq<char>,
    pub found: bool,
    pub rank: int,
    pub time_ms: int,
    pub misses: int,
    pub bonus: int,
    pub score: int,
    pub total: int,
}

impl View for RoundEntry {
    type V = RoundEntryView;

    open spec fn view(&self) -> RoundEntryView {
        RoundEntryView {
            id: self.id as int,
            name: self.name@,
            found: self.found,
            rank: self.rank as int,
            time_ms: self.time_ms as int,
            misses: self.misses as int,
            bonus: self.bonus as int,
            score: self.score as int,
            total: self.total as int,
        }
    }
}

pub open spec fn entries(s: Seq<RoundEntry>) -> Seq<RoundEntryView> {
    s.map_values(|r: RoundEntry| r@)
}

/// One player's line in the final standings.
#[derive(Clone, Debug)]
pub struct Standing {
    pub id: u32,
    pub name: String,
    pub total: u32,
}

pub struct StandingView {
    pub id: int,
    pub name: Seq<char>,
    pub total: int,
}

impl View for Standing {
    type V = StandingView;

    open spec fn view(&self) -> StandingView {
        StandingView { id: self.id as int, name: self.name@, total: self.total as int }
    }
}

pub open spec fn standings(s: Seq<Standing>) -> Seq<StandingView> {
    s.map_values(|r: Standing| r@)
}

#[derive(Clone, Debug)]
pub enum ServerMsg {
    Error { message: String },
    /// Sent on join and whenever lobby membership / settings change.
    Lobby { code: String, you: u32, token: String, players: Vec<PlayerInfo>, config: Config },
    RoundStart {
        round: u32,
        total_rounds: u32,
        seed: u32,
        round_secs: u32,
        /// Round modifier: "", "night", "lightning", "crowded" or "tiny".
        mutator: String,
        /// Timestamp (ms since epoch) when the round ends.
        ends_at_ms: u64,
    },
    /// Personal verdict on your click. `target` is who you hit:
    /// "waldo", "wenda", "woof", "wizard", "odlaw" or "miss".
    ClickResult { target: String, points: i32, round_score: u32, misses: u32 },
    /// Someone found Waldo.
    PlayerFound { id: u32, found: u32, total: u32 },
    RoundResult {
        round: u32,
        waldo: Spot,
        results: Vec<RoundEntry>,
        /// ms until the next round or the win screen.
        next_in_ms: u64,
    },
    GameOver { leaderboard: Vec<Standing> },
    /// Everything a rejoining client needs to rebuild a round in progress.
    Restore {
        round: u32,
        total_rounds: u32,
        seed: u32,
        round_secs: u32,
        mutator: String,
        ends_at_ms: u64,
        /// Your own progress this round.
        found_rank: u32,
        misses: u32,
        wenda: bool,
        woof: bool,
        wizard: bool,
        odlaw: bool,
    },
}

pub enum ServerMsgView {
    Error { message: Seq<char> },
    Lobby {
        code: Seq<char>,
        you: int,
        token: Seq<char>,
        players: Seq<PlayerInfoView>,
        config: Config,
    },
    RoundStart {
        round: int,
        total_rounds: int,
        seed: int,
        round_secs: int,
        mutator: Seq<char>,
        ends_at_ms: int,
    },
    ClickResult { target: Seq<char>, points: int, round_score: int, misses: int },
    PlayerFound { id: int, found: int, total: int },
    RoundResult { round: int, waldo: Spot, results: Seq<RoundEntryView>, next_in_ms: int },
    GameOver { leaderboard: Seq<StandingView> },
    Restore {
        round: int,
        total_rounds: int,
        seed: int,
        round_secs: int,
        mutator: Seq<char>,
        ends_at_ms: int,
        found_rank: int,
        misses: int,
        wenda: bool,
        woof: bool,
        wizard: bool,
        odlaw: bool,
    },
}

impl View for ServerMsg {
    type V = ServerMsgView;

    open spec fn view(&self) -> ServerMsgView {
        match *self {
            ServerMsg::Error { message } => ServerMsgView::Error { message: message@ },
            ServerMsg::Lobby { code, you, token, players, config } => ServerMsgView::Lobby {
                code: code@,
                you: you as int,
                token: token@,
                players: infos(players@),
                config,
            },
            ServerMsg::RoundStart { round, total_rounds, seed, round_secs, mutator, ends_at_ms } =>
                ServerMsgView::RoundStart {
                    round: round as int,
                    total_rounds: total_rounds as int,
                    seed: seed as int,
                    round_secs: round_secs as int,
                    mutator: mutator@,
                    ends_at_ms: ends_at_ms as int,
                },
            ServerMsg::ClickResult { target, points, round_score, misses } =>
                ServerMsgView::ClickResult {
                    target: target@,
                    points: points as int,
                    round_score: round_score as int,
                    misses: misses as int,
                },
            ServerMsg::PlayerFound { id, found, total } => ServerMsgView::PlayerFound {
                id: id as int,
                found: found as int,
                total: total as int,
            },
            ServerMsg::RoundResult { round, waldo, results, next_in_ms } =>
                ServerMsgView::RoundResult {
                    round: round as int,
                    waldo,
                    results: entries(results@),
                    next_in_ms: next_in_ms as int,
                },
            ServerMsg::GameOver { leaderboard } => ServerMsgView::GameOver {
                leaderboard: standings(leaderboard@),
            },
            ServerMsg::Restore {
                round,
                total_rounds,
                seed,
                round_secs,
                mutator,
                ends_at_ms,
                found_rank,
                misses,
                wenda,
                woof,
                wizard,
                odlaw,
            } => ServerMsgView::Restore {
                round: round as int,
                total_rounds: total_rounds as int,
                seed: seed as int,
                round_secs: round_secs as int,
                mutator: mutator@,
                ends_at_ms: ends_at_ms as int,
                found_rank: found_rank as int,
                misses: misses as int,
                wenda,
                woof,
                wizard,
                odlaw,
            },
        }
    }
}

} // verus!
