//! The lobby in mathematical terms: its state, and what each event does to it.

use vstd::prelude::*;

use crate::ordering::{first, ranked};
use crate::protocol::{
    ClientMsgView, Config, PlayerInfoView, RoundEntryView, ServerMsgView, Spot, StandingView,
};
use crate::rng::RngView;
use crate::scoring::{
    bonus_value, rank_value, round_value, BONUS_WENDA, BONUS_WIZARD, BONUS_WOOF, MISS_PENALTY,
    ODLAW_PENALTY, WALDO_HIT_RADIUS,
};
use crate::text::{is_control, trimmed};

verus! {

/// Where the game stands.
#[derive(Clone, Copy, Debug, PartialEq, Eq, Structural)]
pub enum Phase {
    Waiting,
    Playing,
    Intermission,
}

pub enum TimerView {
    RoundEnd { gen: int },
    Intermission { gen: int },
    Grace { player: int, gen: int },
}

pub enum OutView {
    To(int, ServerMsgView),
    Reply(ServerMsgView),
    All(ServerMsgView),
    Bound(int),
    Unbound(int),
    Schedule { at_ms: int, timer: TimerView },
    Empty,
}

/// How far a click fell from Waldo and from each of the cast.
pub struct RangesView {
    pub waldo: int,
    pub cast: Seq<u32>,
}

pub enum EventView {
    Client {
        from: Option<int>,
        msg: ClientMsgView,
        id: int,
        token: Seq<char>,
        ranges: RangesView,
    },
    Dropped(int),
    Fired(TimerView),
}

pub struct SettingsView {
    pub intermission_ms: int,
    pub grace_ms: int,
    pub mutator: Option<Seq<char>>,
    pub max_players: int,
}

impl SettingsView {
    /// The settings of an ordinary lobby.
    pub open spec fn usual() -> SettingsView {
        SettingsView { intermission_ms: 8000, grace_ms: 60_000, mutator: None, max_players: 12 }
    }
}

pub struct PlayerView {
    pub id: int,
    pub name: Seq<char>,
    pub token: Seq<char>,
    pub connected: bool,
    pub disconnect_gen: int,
    pub found_rank: int,
    pub found_at_ms: int,
    pub misses: int,
    pub wenda: bool,
    pub woof: bool,
    pub wizard: bool,
    pub odlaw: bool,
    pub total: int,
}

pub struct LobbyView {
    pub code: Seq<char>,
    pub players: Seq<PlayerView>,
    pub config: Config,
    pub phase: Phase,
    pub round: int,
    pub seed: int,
    pub round_ends_ms: int,
    pub found: int,
    pub waldo: Spot,
    pub cast: Seq<(Seq<char>, Spot)>,
    pub mutator: Seq<char>,
    pub round_len_ms: int,
    pub timer_gen: int,
    pub settings: SettingsView,
}

/// The lobby and the random stream after something happened, and what the caller is
/// asked to do about it.
pub struct Step {
    pub lobby: LobbyView,
    pub rng: RngView,
    pub outs: Seq<OutView>,
}

/// The characters of a name that are kept: no control characters.
pub open spec fn printable() -> spec_fn(char) -> bool {
    |c: char| !is_control(c)
}

/// The first `n` of `s`, or all of it.
pub open spec fn at_most(s: Seq<char>, n: int) -> Seq<char> {
    if s.len() > n {
        s.take(n)
    } else {
        s
    }
}

/// The name a player goes by: printable, at most 20 characters before trimming, and
/// "Player" if nothing is left.
pub open spec fn sanitized(name: Seq<char>) -> Seq<char> {
    let short = trimmed(at_most(name.filter(printable()), 20));
    if short.len() == 0 {
        "Player"@
    } else {
        short
    }
}

pub open spec fn has_id(id: int) -> spec_fn(PlayerView) -> bool {
    |p: PlayerView| p.id == id
}

pub open spec fn lacks_id(id: int) -> spec_fn(PlayerView) -> bool {
    |p: PlayerView| p.id != id
}

pub open spec fn has_token(token: Seq<char>) -> spec_fn(PlayerView) -> bool {
    |p: PlayerView| p.token == token
}

/// How many of these players have found Waldo.
pub open spec fn finders(players: Seq<PlayerView>) -> nat
    decreases players.len(),
{
    if players.len() == 0 {
        0
    } else {
        finders(players.drop_last()) + if players.last().found_rank > 0 {
            1nat
        } else {
            0
        }
    }
}

/// How far into a round of `round_len_ms` it is when `remaining` ms are left, never
/// less than nothing.
pub open spec fn elapsed(round_len_ms: int, remaining: int) -> int {
    if remaining < round_len_ms {
        round_len_ms - remaining
    } else {
        0
    }
}

/// `i` is the member of the cast a click hit: in range, and of those the nearest, the
/// earlier one in a tie.
pub open spec fn is_nearest(ranges: Seq<u32>, n: int, i: int) -> bool {
    &&& 0 <= i < n
    &&& ranges[i] <= WALDO_HIT_RADIUS
    &&& forall|j: int| 0 <= j < n ==> ranges[i] <= #[trigger] ranges[j]
    &&& forall|j: int| 0 <= j < i ==> ranges[i] < #[trigger] ranges[j]
}

/// Which of the first `n` members of the cast a click hit.
pub open spec fn nearest(ranges: Seq<u32>, n: int) -> Option<int> {
    if exists|i: int| is_nearest(ranges, n, i) {
        Some(choose|i: int| is_nearest(ranges, n, i))
    } else {
        None
    }
}

/// Who a member of the cast is: anyone unknown counts as Odlaw.
pub open spec fn target_of(role: Seq<char>) -> Seq<char> {
    if role == "wenda"@ || role == "woof"@ || role == "wizard"@ {
        role
    } else {
        "odlaw"@
    }
}

/// What hitting a member of the cast is worth.
pub open spec fn target_points(role: Seq<char>) -> int {
    if role == "wenda"@ {
        BONUS_WENDA as int
    } else if role == "woof"@ {
        BONUS_WOOF as int
    } else if role == "wizard"@ {
        BONUS_WIZARD as int
    } else {
        -ODLAW_PENALTY
    }
}

/// The mutator that a draw out of nine stands for: most rounds have none.
pub open spec fn drawn_mutator(n: nat) -> Seq<char> {
    if n == 0 {
        "night"@
    } else if n == 1 {
        "lightning"@
    } else if n == 2 {
        "crowded"@
    } else if n == 3 {
        "tiny"@
    } else {
        ""@
    }
}

/// How long a round lasts: a lightning round has a third of the time.
pub open spec fn round_secs(config: Config, mutator: Seq<char>) -> int {
    if mutator == "lightning"@ {
        config.round_secs as int / 3
    } else {
        config.round_secs as int
    }
}

pub open spec fn entry_of() -> spec_fn(PlayerView) -> RoundEntryView {
    |p: PlayerView| p.entry()
}

pub open spec fn standing_of() -> spec_fn(PlayerView) -> StandingView {
    |p: PlayerView| StandingView { id: p.id, name: p.name, total: p.total }
}

pub open spec fn entry_score() -> spec_fn(RoundEntryView) -> int {
    |e: RoundEntryView| e.score
}

pub open spec fn standing_total() -> spec_fn(StandingView) -> int {
    |s: StandingView| s.total
}

pub open spec fn scored() -> spec_fn(PlayerView) -> PlayerView {
    |p: PlayerView| PlayerView { total: p.total + p.round_score(), ..p }
}

pub open spec fn round_reset() -> spec_fn(PlayerView) -> PlayerView {
    |p: PlayerView| p.reset()
}

pub open spec fn total_reset() -> spec_fn(PlayerView) -> PlayerView {
    |p: PlayerView| PlayerView { total: 0, ..p }
}

impl PlayerView {
    pub open spec fn fresh(id: int, name: Seq<char>, token: Seq<char>) -> PlayerView {
        PlayerView {
            id,
            name,
            token,
            connected: true,
            disconnect_gen: 0,
            found_rank: 0,
            found_at_ms: -1,
            misses: 0,
            wenda: false,
            woof: false,
            wizard: false,
            odlaw: false,
            total: 0,
        }
    }

    pub open spec fn round_score(self) -> int {
        round_value(self.found_rank, self.misses, self.wenda, self.woof, self.wizard, self.odlaw)
    }

    pub open spec fn reset(self) -> PlayerView {
        PlayerView {
            found_rank: 0,
            found_at_ms: -1,
            misses: 0,
            wenda: false,
            woof: false,
            wizard: false,
            odlaw: false,
            ..self
        }
    }

    pub open spec fn entry(self) -> RoundEntryView {
        RoundEntryView {
            id: self.id,
            name: self.name,
            found: self.found_rank > 0,
            rank: self.found_rank,
            time_ms: self.found_at_ms,
            misses: self.misses,
            bonus: bonus_value(self.wenda, self.woof, self.wizard, self.odlaw),
            score: self.round_score(),
            total: self.total,
        }
    }

    /// Whether this player has met that member of the cast this round.
    pub open spec fn met(self, role: Seq<char>) -> bool {
        if role == "wenda"@ {
            self.wenda
        } else if role == "woof"@ {
            self.woof
        } else if role == "wizard"@ {
            self.wizard
        } else {
            self.odlaw
        }
    }

    /// This player after meeting that member of the cast.
    pub open spec fn meeting(self, role: Seq<char>) -> PlayerView {
        if role == "wenda"@ {
            PlayerView { wenda: true, ..self }
        } else if role == "woof"@ {
            PlayerView { woof: true, ..self }
        } else if role == "wizard"@ {
            PlayerView { wizard: true, ..self }
        } else {
            PlayerView { odlaw: true, ..self }
        }
    }

    /// The personal verdict on a click that left this player as they are.
    pub open spec fn verdict(self, target: Seq<char>, points: int) -> OutView {
        OutView::To(
            self.id,
            ServerMsgView::ClickResult {
                target,
                points,
                round_score: self.round_score(),
                misses: self.misses,
            },
        )
    }

    /// What is always true of a player.
    pub open spec fn valid(self) -> bool {
        &&& 0 <= self.found_rank
        &&& 0 <= self.misses
        &&& 0 <= self.total
        &&& 0 <= self.disconnect_gen
        &&& self.found_rank == 0 ==> self.found_at_ms == -1
        &&& self.found_rank > 0 ==> self.found_at_ms >= 0
    }

    /// Whether this player's counters can take one more event.
    pub open spec fn headroom(self) -> bool {
        &&& self.misses < u32::MAX
        &&& self.disconnect_gen < u64::MAX
    }
}

/// The most points that so many rounds can give: 1325 each, for finding Waldo first and
/// all of the cast but Odlaw.
pub open spec fn best_total(rounds: int) -> int {
    1325 * rounds
}

impl LobbyView {
    pub open spec fn opened(code: Seq<char>, settings: SettingsView) -> LobbyView {
        LobbyView {
            code,
            players: Seq::empty(),
            config: Config { rounds: 3, round_secs: 90 },
            phase: Phase::Waiting,
            round: 0,
            seed: 0,
            round_ends_ms: 0,
            found: 0,
            waldo: Spot { x: 0, y: 0, z: 0 },
            cast: Seq::empty(),
            mutator: Seq::empty(),
            round_len_ms: 0,
            timer_gen: 0,
            settings,
        }
    }

    /// What is always true of a lobby: its settings are ones a host may choose, no
    /// game runs past its last round, no round is longer than five minutes, and nobody
    /// has more points than the rounds so far can give.
    pub open spec fn valid(self) -> bool {
        &&& self.config.valid()
        &&& self.phase == Phase::Waiting ==> self.round == 0
        &&& self.phase != Phase::Waiting ==> 1 <= self.round <= self.config.rounds
        &&& 0 <= self.round_len_ms <= 300_000
        &&& 0 <= self.found
        &&& self.timer_gen >= 0
        &&& forall|i: int|
            0 <= i < self.players.len() ==> (#[trigger] self.players[i]).valid()
                && self.players[i].total <= best_total(self.rounds_scored())
    }

    /// How many rounds the totals can stem from at most.
    pub open spec fn rounds_scored(self) -> int {
        match self.phase {
            Phase::Waiting => 10,
            Phase::Playing => self.round - 1,
            Phase::Intermission => self.round,
        }
    }

    /// Whether every counter and clock involved fits its machine word for one more
    /// event at `now`.
    pub open spec fn headroom(self, now: int) -> bool {
        &&& self.players.len() < u32::MAX
        &&& self.found < u32::MAX
        &&& self.timer_gen < u64::MAX
        &&& now + self.settings.grace_ms <= u64::MAX
        &&& now + self.settings.intermission_ms <= u64::MAX
        &&& now + 300_000 <= u64::MAX
        &&& forall|i: int| 0 <= i < self.players.len() ==> (#[trigger] self.players[i]).headroom()
    }

    pub open spec fn find(self, id: int) -> Option<int> {
        first(self.players, has_id(id))
    }

    pub open spec fn with_player(self, i: int, p: PlayerView) -> LobbyView {
        LobbyView { players: self.players.update(i, p), ..self }
    }

    /// The host is the player who has been in the lobby longest.
    pub open spec fn is_host(self, id: int) -> bool {
        self.players.len() > 0 && self.players[0].id == id
    }

    /// Someone is connected, and everyone who is has found Waldo.
    pub open spec fn all_connected_found(self) -> bool {
        &&& exists|i: int| 0 <= i < self.players.len() && (#[trigger] self.players[i]).connected
        &&& forall|i: int|
            0 <= i < self.players.len() && (#[trigger] self.players[i]).connected
                ==> self.players[i].found_rank > 0
    }

    /// The players as everyone sees them.
    pub open spec fn roster(self) -> Seq<PlayerInfoView> {
        self.players.map(
            |i: int, p: PlayerView|
                PlayerInfoView { id: p.id, name: p.name, is_host: i == 0, connected: p.connected },
        )
    }

    /// What the lobby looks like to this player, with their own id and token.
    pub open spec fn snapshot(self, id: int) -> ServerMsgView {
        ServerMsgView::Lobby {
            code: self.code,
            you: id,
            token: self.players[self.find(id)->0].token,
            players: self.roster(),
            config: self.config,
        }
    }

    /// One lobby message to each player.
    pub open spec fn broadcast(self) -> Seq<OutView> {
        Seq::new(
            self.players.len(),
            |i: int| OutView::To(self.players[i].id, self.snapshot(self.players[i].id)),
        )
    }

    /// The round in progress, for a player coming back to it.
    pub open spec fn restored(self, i: int) -> ServerMsgView {
        let p = self.players[i];
        ServerMsgView::Restore {
            round: self.round,
            total_rounds: self.config.rounds as int,
            seed: self.seed,
            round_secs: self.round_len_ms / 1000,
            mutator: self.mutator,
            ends_at_ms: self.round_ends_ms,
            found_rank: p.found_rank,
            misses: p.misses,
            wenda: p.wenda,
            woof: p.woof,
            wizard: p.wizard,
            odlaw: p.odlaw,
        }
    }

    pub open spec fn leaderboard(self) -> Seq<StandingView> {
        ranked(self.players.map_values(standing_of()), standing_total())
    }

    /// Nothing happened.
    pub open spec fn idle(self, rng: RngView) -> Step {
        Step { lobby: self, rng, outs: Seq::empty() }
    }

    /// The connection that asked is told no, and nothing else happens.
    pub open spec fn turned_away(self, rng: RngView, message: Seq<char>) -> Step {
        Step { lobby: self, rng, outs: seq![OutView::Reply(ServerMsgView::Error { message })] }
    }

    /// Whoever goes by this id is told no, and nothing else happens.
    pub open spec fn refused(self, rng: RngView, id: int, message: Seq<char>) -> Step {
        Step {
            lobby: self,
            rng,
            outs: seq![OutView::To(id, ServerMsgView::Error { message })],
        }
    }

    /// The lobby once the round is scored, its results shown and its pause begun.
    pub open spec fn scored_round(self) -> LobbyView {
        LobbyView {
            phase: Phase::Intermission,
            timer_gen: self.timer_gen + 1,
            players: self.players.map_values(scored()),
            ..self
        }
    }

    /// The round's results, best score first.
    pub open spec fn results(self) -> Seq<RoundEntryView> {
        ranked(self.players.map_values(scored()).map_values(entry_of()), entry_score())
    }

    /// What ending the round announces and schedules.
    pub open spec fn finish_outs(self, now: int) -> Seq<OutView> {
        seq![
            OutView::All(
                ServerMsgView::RoundResult {
                    round: self.round,
                    waldo: self.waldo,
                    results: self.results(),
                    next_in_ms: self.settings.intermission_ms,
                },
            ),
            OutView::Schedule {
                at_ms: now + self.settings.intermission_ms,
                timer: TimerView::Intermission { gen: self.timer_gen + 1 },
            },
        ]
    }

    /// A round is on, and everyone who could still find Waldo has.
    pub open spec fn round_is_over(self) -> bool {
        self.phase == Phase::Playing && self.all_connected_found()
    }

    /// The round ends if everyone who could still find Waldo has.
    pub open spec fn finish_if_found(self, now: int, rng: RngView, outs: Seq<OutView>) -> Step {
        if self.round_is_over() {
            Step { lobby: self.scored_round(), rng, outs: outs + self.finish_outs(now) }
        } else {
            Step { lobby: self, rng, outs }
        }
    }

    /// The mutator of a round that starts now, after its seed has been drawn.
    pub open spec fn chosen_mutator(self, rng: RngView) -> Seq<char> {
        match self.settings.mutator {
            Some(m) => m,
            None => drawn_mutator(rng.next().picked(9)),
        }
    }

    /// The next round starts: a new seed, a mutator, everyone's progress reset, and a
    /// timer for its end. The world is not laid out yet.
    pub open spec fn start_round(self, now: int, rng: RngView) -> Step {
        let mutator = self.chosen_mutator(rng);
        let secs = round_secs(self.config, mutator);
        let ends = now + secs * 1000;
        let gen = self.timer_gen + 1;
        Step {
            lobby: LobbyView {
                round: self.round + 1,
                phase: Phase::Playing,
                seed: rng.drawn() as int,
                mutator,
                round_len_ms: secs * 1000,
                round_ends_ms: ends,
                found: 0,
                waldo: Spot { x: 0, y: 0, z: 0 },
                cast: Seq::empty(),
                players: self.players.map_values(round_reset()),
                timer_gen: gen,
                ..self
            },
            rng: match self.settings.mutator {
                Some(_) => rng.next(),
                None => rng.next().next(),
            },
            outs: seq![
                OutView::All(
                    ServerMsgView::RoundStart {
                        round: self.round + 1,
                        total_rounds: self.config.rounds as int,
                        seed: rng.drawn() as int,
                        round_secs: secs,
                        mutator,
                        ends_at_ms: ends,
                    },
                ),
                OutView::Schedule { at_ms: ends, timer: TimerView::RoundEnd { gen } },
            ],
        }
    }

    /// The lobby with a newcomer in it.
    pub open spec fn seating(self, id: int, name: Seq<char>, token: Seq<char>) -> LobbyView {
        LobbyView {
            players: self.players.push(PlayerView::fresh(id, sanitized(name), token)),
            ..self
        }
    }

    /// A seat is taken: the newcomer is bound, and everyone is told.
    pub open spec fn seated(self, rng: RngView, id: int, name: Seq<char>, token: Seq<char>) -> Step {
        let lobby = self.seating(id, name, token);
        Step { lobby, rng, outs: seq![OutView::Bound(id)] + lobby.broadcast() }
    }

    /// Someone offers a token to get their seat back.
    pub open spec fn rejoining(self, rng: RngView, offered: Seq<char>) -> Step {
        match first(self.players, has_token(offered)) {
            None => self.turned_away(rng, "session expired"@),
            Some(i) => self.rejoined(rng, i),
        }
    }

    /// The caller placed Waldo and the cast in the world of the round.
    pub open spec fn laid_out(self, waldo: Spot, cast: Seq<(Seq<char>, Spot)>) -> LobbyView {
        LobbyView { waldo, cast, ..self }
    }

    /// The player with this token is back.
    pub open spec fn rejoined(self, rng: RngView, i: int) -> Step {
        let p = self.players[i];
        let lobby = self.with_player(
            i,
            PlayerView { connected: true, disconnect_gen: p.disconnect_gen + 1, ..p },
        );
        let outs = seq![OutView::Bound(p.id)] + lobby.broadcast();
        Step {
            lobby,
            rng,
            outs: if self.phase == Phase::Playing {
                outs.push(OutView::To(p.id, lobby.restored(lobby.find(p.id)->0)))
            } else {
                outs
            },
        }
    }

    /// A connection asks for a lobby of its own: only an empty one is had that way.
    pub open spec fn creating(
        self,
        rng: RngView,
        from: Option<int>,
        name: Seq<char>,
        id: int,
        token: Seq<char>,
    ) -> Step {
        if from is Some || self.players.len() > 0 {
            self.refused(rng, id, "already in a lobby"@)
        } else {
            self.seated(rng, id, name, token)
        }
    }

    /// A connection asks for a seat.
    pub open spec fn joining(
        self,
        rng: RngView,
        from: Option<int>,
        name: Seq<char>,
        id: int,
        token: Seq<char>,
    ) -> Step {
        if from is Some {
            self.refused(rng, id, "already in a lobby"@)
        } else if self.phase != Phase::Waiting {
            self.refused(rng, id, "game already in progress"@)
        } else if self.players.len() >= self.settings.max_players {
            self.refused(rng, id, "lobby is full"@)
        } else {
            self.seated(rng, id, name, token)
        }
    }

    /// Someone asks for other settings.
    pub open spec fn configuring(self, rng: RngView, from: Option<int>, wanted: Config) -> Step {
        match from {
            None => self.turned_away(rng, "not in a lobby"@),
            Some(who) => if !self.is_host(who) {
                self.refused(rng, who, "only the host can change settings"@)
            } else if self.phase != Phase::Waiting {
                self.refused(rng, who, "cannot change settings mid-game"@)
            } else {
                let lobby = LobbyView { config: wanted.in_range(), ..self };
                Step { lobby, rng, outs: lobby.broadcast() }
            },
        }
    }

    /// Someone asks for the game to start.
    pub open spec fn starting(self, now: int, rng: RngView, from: Option<int>) -> Step {
        match from {
            None => self.turned_away(rng, "not in a lobby"@),
            Some(who) => if !self.is_host(who) {
                self.refused(rng, who, "only the host can start"@)
            } else if self.phase != Phase::Waiting {
                self.refused(rng, who, "game already running"@)
            } else {
                LobbyView {
                    players: self.players.map_values(total_reset()),
                    round: 0,
                    ..self
                }.start_round(now, rng)
            },
        }
    }

    pub open spec fn client(
        self,
        now: int,
        rng: RngView,
        from: Option<int>,
        msg: ClientMsgView,
        id: int,
        token: Seq<char>,
        ranges: RangesView,
    ) -> Step {
        match msg {
            ClientMsgView::Create { name } => self.creating(rng, from, name, id, token),
            ClientMsgView::Join { code: _, name } => self.joining(rng, from, name, id, token),
            ClientMsgView::Rejoin { code: _, token: offered } => {
                if from is Some {
                    self.turned_away(rng, "already in a lobby"@)
                } else {
                    self.rejoining(rng, offered)
                }
            },
            ClientMsgView::Leave => {
                match from {
                    None => self.idle(rng),
                    Some(who) => self.removed(now, rng, who),
                }
            },
            ClientMsgView::Configure { rounds, round_secs } => {
                self.configuring(rng, from, Config { rounds, round_secs })
            },
            ClientMsgView::Start => self.starting(now, rng, from),
            ClientMsgView::Click { pos } => {
                match from {
                    None => self.idle(rng),
                    Some(who) => self.click(now, rng, who, pos, ranges),
                }
            },
        }
    }

    /// A click is judged: Waldo first, then the nearest of the cast in range,
    /// otherwise a miss. A character already met this round does nothing.
    pub open spec fn click(
        self,
        now: int,
        rng: RngView,
        id: int,
        pos: Spot,
        ranges: RangesView,
    ) -> Step {
        if self.phase != Phase::Playing || !pos.finite() || self.find(id) is None {
            self.idle(rng)
        } else {
            let i = self.find(id)->0;
            let p = self.players[i];
            if ranges.waldo <= WALDO_HIT_RADIUS {
                if p.found_rank == 0 {
                    self.found_waldo(now, rng, i)
                } else {
                    self.idle(rng)
                }
            } else {
                match nearest(ranges.cast, self.cast_in_view(ranges)) {
                    Some(c) => {
                        let role = self.cast[c].0;
                        if p.met(role) {
                            self.idle(rng)
                        } else {
                            let q = p.meeting(role);
                            Step {
                                lobby: self.with_player(i, q),
                                rng,
                                outs: seq![q.verdict(target_of(role), target_points(role))],
                            }
                        }
                    },
                    None => {
                        let q = PlayerView { misses: p.misses + 1, ..p };
                        Step {
                            lobby: self.with_player(i, q),
                            rng,
                            outs: seq![q.verdict("miss"@, -MISS_PENALTY)],
                        }
                    },
                }
            }
        }
    }

    /// How many of the cast a click was measured against.
    pub open spec fn cast_in_view(self, ranges: RangesView) -> int {
        if ranges.cast.len() < self.cast.len() {
            ranges.cast.len() as int
        } else {
            self.cast.len() as int
        }
    }

    /// A player found Waldo: they rank behind everyone who already has this round, also
    /// those who have left since, and the round ends if they were the last.
    pub open spec fn found_waldo(self, now: int, rng: RngView, i: int) -> Step {
        let p = self.players[i];
        let rank = self.found + 1;
        let remaining = if self.round_ends_ms > now {
            self.round_ends_ms - now
        } else {
            0
        };
        let q = PlayerView {
            found_rank: rank,
            found_at_ms: elapsed(self.round_len_ms, remaining),
            ..p
        };
        (LobbyView { found: rank, ..self.with_player(i, q) }).finish_if_found(
            now,
            rng,
            seq![
                q.verdict("waldo"@, rank_value(rank)),
                OutView::All(
                    ServerMsgView::PlayerFound {
                        id: p.id,
                        found: finders(self.players) as int + 1,
                        total: self.players.len() as int,
                    },
                ),
            ],
        )
    }

    /// A connection dropped: the player keeps their seat for the grace period.
    pub open spec fn dropped(self, now: int, rng: RngView, id: int) -> Step {
        match self.find(id) {
            None => self.idle(rng),
            Some(i) => {
                let p = self.players[i];
                let gen = p.disconnect_gen + 1;
                let lobby = self.with_player(
                    i,
                    PlayerView { connected: false, disconnect_gen: gen, ..p },
                );
                lobby.finish_if_found(
                    now,
                    rng,
                    lobby.broadcast().push(
                        OutView::Schedule {
                            at_ms: now + self.settings.grace_ms,
                            timer: TimerView::Grace { player: id, gen },
                        },
                    ),
                )
            },
        }
    }

    /// The lobby without the players of this id.
    pub open spec fn without(self, id: int) -> LobbyView {
        LobbyView { players: self.players.filter(lacks_id(id)), ..self }
    }

    /// A player is gone for real: grace expired, or they left deliberately.
    pub open spec fn removed(self, now: int, rng: RngView, id: int) -> Step {
        let lobby = self.without(id);
        if lobby.players.len() == self.players.len() {
            self.idle(rng)
        } else if lobby.players.len() == 0 {
            Step { lobby, rng, outs: seq![OutView::Unbound(id)] }
        } else {
            lobby.finish_if_found(now, rng, seq![OutView::Unbound(id)] + lobby.broadcast())
        }
    }

    pub open spec fn fired(self, now: int, rng: RngView, timer: TimerView) -> Step {
        match timer {
            TimerView::RoundEnd { gen } => {
                if self.timer_gen == gen && self.phase == Phase::Playing {
                    Step { lobby: self.scored_round(), rng, outs: self.finish_outs(now) }
                } else {
                    self.idle(rng)
                }
            },
            TimerView::Intermission { gen } => {
                if self.timer_gen != gen || self.phase != Phase::Intermission {
                    self.idle(rng)
                } else if self.round >= self.config.rounds {
                    let lobby = LobbyView { phase: Phase::Waiting, round: 0, ..self };
                    Step {
                        lobby,
                        rng,
                        outs: seq![
                            OutView::All(ServerMsgView::GameOver { leaderboard: self.leaderboard() }),
                        ] + lobby.broadcast(),
                    }
                } else {
                    self.start_round(now, rng)
                }
            },
            TimerView::Grace { player, gen } => {
                match self.find(player) {
                    Some(i) => {
                        if !self.players[i].connected && self.players[i].disconnect_gen == gen {
                            self.removed(now, rng, player)
                        } else {
                            self.idle(rng)
                        }
                    },
                    None => self.idle(rng),
                }
            },
        }
    }

    /// What an event does, before the caller is told whether anyone is left.
    pub open spec fn handled(self, now: int, rng: RngView, event: EventView) -> Step {
        match event {
            EventView::Client { from, msg, id, token, ranges } => self.client(
                now,
                rng,
                from,
                msg,
                id,
                token,
                ranges,
            ),
            EventView::Dropped(id) => self.dropped(now, rng, id),
            EventView::Fired(timer) => self.fired(now, rng, timer),
        }
    }

    /// What an event does.
    pub open spec fn apply(self, now: int, rng: RngView, event: EventView) -> Step {
        let step = self.handled(now, rng, event);
        if step.lobby.players.len() == 0 {
            Step { outs: step.outs.push(OutView::Empty), ..step }
        } else {
            step
        }
    }
}

} // verus!
