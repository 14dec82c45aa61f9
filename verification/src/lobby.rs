//! The lobby state machine: every rule of the game, and no I/O.
//!
//! Nothing in here reads a clock, sleeps, allocates an id, or sends a byte. A
//! caller feeds it [`Event`]s with the current time and gets back [`Out`]s to
//! deliver, which is what lets the same rules run behind a WebSocket server or
//! inside a host's browser over a data channel.
//!
//! Four things a caller must supply because the machine will not invent them: the
//! current time in milliseconds, player ids and session tokens, an [`Rng`] for round
//! seeds and mutator choice, and the world that a round's seed stands for. Once a
//! round starts the caller lays the world out, and it measures each click against it.

use vstd::prelude::*;

use crate::laws::{
    law_events_keep_lobby_valid, law_totals_fit, lemma_with_player_valid, lemma_without_valid,
};
use crate::model::{
    at_most, drawn_mutator, entry_of, entry_score, finders, has_id, has_token, is_nearest,
    lacks_id, nearest, printable, round_reset, round_secs, sanitized, scored, standing_of,
    standing_total, target_of, target_points, total_reset, EventView, LobbyView, OutView, Phase,
    PlayerView, RangesView, SettingsView, Step, TimerView,
};
use crate::ordering::{
    first, lemma_filter_keeps, lemma_first, lemma_first_exists, lemma_first_none, lemma_place,
    place, ranked,
};
use crate::protocol::{
    entries, infos, standings, ClientMsg, Config, PlayerInfo, RoundEntry, ServerMsg, ServerMsgView,
    Spot, Standing,
};
use crate::rng::{Rng, RngView};
use crate::scoring::{
    bonus_points, rank_points, score_round, BONUS_WENDA, BONUS_WIZARD, BONUS_WOOF, MAX_SCORE,
    MISS_PENALTY, ODLAW_PENALTY, WALDO_HIT_RADIUS,
};
use crate::text::{chars_of, control, same, text_of, trim};

verus! {

/// A timer the caller is asked to fire back later. Each carries the generation it
/// was scheduled in, so a timer that has been overtaken is ignored on arrival
/// rather than having to be cancelled.
#[derive(Clone, Copy, Debug, PartialEq, Eq, Structural)]
pub enum Timer {
    /// The round's time limit ran out.
    RoundEnd { gen: u64 },
    /// The pause after a round's results is over.
    Intermission { gen: u64 },
    /// A disconnected player's grace period expired.
    Grace { player: u32, gen: u64 },
}

impl View for Timer {
    type V = TimerView;

    open spec fn view(&self) -> TimerView {
        match *self {
            Timer::RoundEnd { gen } => TimerView::RoundEnd { gen: gen as int },
            Timer::Intermission { gen } => TimerView::Intermission { gen: gen as int },
            Timer::Grace { player, gen } => TimerView::Grace {
                player: player as int,
                gen: gen as int,
            },
        }
    }
}

/// Something the caller must do. Anything the machine cannot do itself.
#[derive(Clone, Debug)]
pub enum Out {
    /// Deliver to one player.
    To(u32, ServerMsg),
    /// Deliver to the connection that raised this event, whoever it belongs to.
    Reply(ServerMsg),
    /// Deliver to every player in the lobby.
    All(ServerMsg),
    /// The connection that raised this event now belongs to this player.
    Bound(u32),
    /// This player is gone for good; forget the connection bound to them.
    Unbound(u32),
    /// Feed `Event::Fired(timer)` back at or after this absolute millisecond.
    Schedule { at_ms: u64, timer: Timer },
    /// Nobody is left; the caller should drop the lobby.
    Empty,
}

impl View for Out {
    type V = OutView;

    open spec fn view(&self) -> OutView {
        match *self {
            Out::To(id, msg) => OutView::To(id as int, msg@),
            Out::Reply(msg) => OutView::Reply(msg@),
            Out::All(msg) => OutView::All(msg@),
            Out::Bound(id) => OutView::Bound(id as int),
            Out::Unbound(id) => OutView::Unbound(id as int),
            Out::Schedule { at_ms, timer } => OutView::Schedule {
                at_ms: at_ms as int,
                timer: timer@,
            },
            Out::Empty => OutView::Empty,
        }
    }
}

pub open spec fn outs(s: Seq<Out>) -> Seq<OutView> {
    s.map_values(|o: Out| o@)
}

/// How far a click fell from Waldo and from each of the cast, as the bits of
/// single-precision distances. Such bits order as the distances do.
#[derive(Clone, Debug)]
pub struct Ranges {
    pub waldo: u32,
    pub cast: Vec<u32>,
}

impl View for Ranges {
    type V = RangesView;

    open spec fn view(&self) -> RangesView {
        RangesView { waldo: self.waldo as int, cast: self.cast@ }
    }
}

/// Something that happened. `Client` wraps the wire protocol; the rest are things
/// the transport knows and the protocol does not.
#[derive(Clone, Debug)]
pub enum Event {
    /// A protocol message from a player, or from a connection with no player yet.
    /// `id` and `token` are used only by `Create` and `Join`, which need an
    /// identity the machine cannot mint; `ranges` only by `Click`.
    Client { from: Option<u32>, msg: ClientMsg, id: u32, token: String, ranges: Ranges },
    /// A connection dropped. The player keeps their seat for the grace period.
    Dropped(u32),
    /// A timer the caller was asked to schedule has come due.
    Fired(Timer),
}

pub open spec fn widen(id: Option<u32>) -> Option<int> {
    match id {
        Some(id) => Some(id as int),
        None => None,
    }
}

impl View for Event {
    type V = EventView;

    open spec fn view(&self) -> EventView {
        match *self {
            Event::Client { from, msg, id, token, ranges } => EventView::Client {
                from: widen(from),
                msg: msg@,
                id: id as int,
                token: token@,
                ranges: ranges@,
            },
            Event::Dropped(id) => EventView::Dropped(id as int),
            Event::Fired(timer) => EventView::Fired(timer@),
        }
    }
}

/// The pace of a game, and how many may play.
#[derive(Clone, Debug)]
pub struct Settings {
    pub intermission_ms: u64,
    pub grace_ms: u64,
    /// Forces every round's mutator instead of picking one at random. Used by the
    /// end to end tests, which cannot see through a random world.
    pub mutator: Option<String>,
    pub max_players: usize,
}

impl View for Settings {
    type V = SettingsView;

    open spec fn view(&self) -> SettingsView {
        SettingsView {
            intermission_ms: self.intermission_ms as int,
            grace_ms: self.grace_ms as int,
            mutator: match self.mutator {
                Some(m) => Some(m@),
                None => None,
            },
            max_players: self.max_players as int,
        }
    }
}

impl Default for Settings {
    fn default() -> (s: Self)
        ensures
            s@ == SettingsView::usual(),
            s@ == (SettingsView {
                intermission_ms: 8000,
                grace_ms: 60_000,
                mutator: None,
                max_players: 12,
            }),
    {
        Settings { intermission_ms: 8000, grace_ms: 60_000, mutator: None, max_players: 12 }
    }
}

impl Settings {
    /// Whether a lobby opened with these settings can take an event at `now_ms`.
    pub fn fits(&self, now_ms: u64) -> (r: bool)
        ensures
            r == LobbyView::opened(Seq::empty(), self@).headroom(now_ms as int),
    {
        now_ms <= u64::MAX - self.grace_ms && now_ms <= u64::MAX - self.intermission_ms && now_ms
            <= u64::MAX - 300_000
    }
}

struct Player {
    id: u32,
    name: String,
    /// Private session token for reconnecting.
    token: String,
    connected: bool,
    /// Bumped on reconnect to invalidate a pending grace timer.
    disconnect_gen: u64,
    /// Finish order for Waldo this round (1-based), 0 = not yet.
    found_rank: u32,
    /// ms into the round when Waldo was clicked.
    found_at_ms: i64,
    misses: u32,
    wenda: bool,
    woof: bool,
    wizard: bool,
    odlaw: bool,
    total: u32,
}

impl View for Player {
    type V = PlayerView;

    closed spec fn view(&self) -> PlayerView {
        PlayerView {
            id: self.id as int,
            name: self.name@,
            token: self.token@,
            connected: self.connected,
            disconnect_gen: self.disconnect_gen as int,
            found_rank: self.found_rank as int,
            found_at_ms: self.found_at_ms as int,
            misses: self.misses as int,
            wenda: self.wenda,
            woof: self.woof,
            wizard: self.wizard,
            odlaw: self.odlaw,
            total: self.total as int,
        }
    }
}

impl Player {
    fn new(id: u32, name: String, token: String) -> (p: Self)
        ensures
            p@ == PlayerView::fresh(id as int, name@, token@),
    {
        Player {
            id,
            name,
            token,
            connected: true,
            disconnect_gen: 0,
            found_rank: 0,
            found_at_ms: -1,
            misses: 0,
            wenda: false,
            woof: false,
            wizard: false,
            odlaw: false,
            total: 0,
        }
    }

    fn round_score(&self) -> (score: u32)
        requires
            self@.valid(),
        ensures
            score == self@.round_score(),
            score <= MAX_SCORE,
    {
        score_round(self.found_rank, self.misses, self.wenda, self.woof, self.wizard, self.odlaw)
    }

    fn reset_round(&mut self)
        ensures
            final(self)@ == old(self)@.reset(),
    {
        self.found_rank = 0;
        self.found_at_ms = -1;
        self.misses = 0;
        self.wenda = false;
        self.woof = false;
        self.wizard = false;
        self.odlaw = false;
    }

    fn entry(&self) -> (e: RoundEntry)
        requires
            self@.valid(),
        ensures
            e@ == self@.entry(),
    {
        RoundEntry {
            id: self.id,
            name: self.name.clone(),
            found: self.found_rank > 0,
            rank: self.found_rank,
            time_ms: self.found_at_ms,
            misses: self.misses,
            bonus: bonus_points(self.wenda, self.woof, self.wizard, self.odlaw),
            score: self.round_score(),
            total: self.total,
        }
    }

    /// Meets a member of the cast. Each interacts once per round: the answer is
    /// whether this was the first time.
    fn meet(&mut self, role: &str) -> (first_time: bool)
        ensures
            first_time == !old(self)@.met(role@),
            final(self)@ == if first_time {
                old(self)@.meeting(role@)
            } else {
                old(self)@
            },
    {
        let flag = if same(role, "wenda") {
            &mut self.wenda
        } else if same(role, "woof") {
            &mut self.woof
        } else if same(role, "wizard") {
            &mut self.wizard
        } else {
            &mut self.odlaw
        };
        let first_time = !*flag;
        *flag = true;
        first_time
    }

    /// The personal verdict on a click that left this player as they are.
    fn verdict(&self, target: &str, points: i32) -> (o: Out)
        requires
            self@.valid(),
        ensures
            o@ == self@.verdict(target@, points as int),
    {
        Out::To(
            self.id,
            ServerMsg::ClickResult {
                target: target.to_owned(),
                points,
                round_score: self.round_score(),
                misses: self.misses,
            },
        )
    }
}

spec fn players_of(s: Seq<Player>) -> Seq<PlayerView> {
    s.map_values(|p: Player| p@)
}

pub open spec fn cast_of(s: Seq<(String, Spot)>) -> Seq<(Seq<char>, Spot)> {
    s.map_values(|c: (String, Spot)| (c.0@, c.1))
}

pub struct Lobby {
    code: String,
    players: Vec<Player>,
    config: Config,
    phase: Phase,
    round: u32,
    seed: u32,
    round_ends_ms: u64,
    /// How many found Waldo this round, whether or not they are still here.
    found: u32,
    /// Waldo's position for the current round, cached when it is laid out.
    waldo: Spot,
    /// Supporting cast positions for the current round: (role, pos).
    cast: Vec<(String, Spot)>,
    /// Current round's mutator ("" = none).
    mutator: String,
    /// Actual round length in ms; mutators may shorten it.
    round_len_ms: u64,
    /// Bumped whenever a scheduled round or intermission timer becomes stale.
    timer_gen: u64,
    settings: Settings,
}

impl View for Lobby {
    type V = LobbyView;

    closed spec fn view(&self) -> LobbyView {
        LobbyView {
            code: self.code@,
            players: players_of(self.players@),
            config: self.config,
            phase: self.phase,
            round: self.round as int,
            seed: self.seed as int,
            round_ends_ms: self.round_ends_ms as int,
            found: self.found as int,
            waldo: self.waldo,
            cast: cast_of(self.cast@),
            mutator: self.mutator@,
            round_len_ms: self.round_len_ms as int,
            timer_gen: self.timer_gen as int,
            settings: self.settings@,
        }
    }
}

/// What a player goes by: control characters dropped, at most 20 kept, trimmed, and
/// never empty.
pub fn sanitize_name(name: &str) -> (r: String)
    ensures
        r@ == sanitized(name@),
{
    let all = chars_of(name);
    let mut kept: Vec<char> = Vec::new();
    let mut i: usize = 0;
    while i < all.len()
        invariant
            i <= all.len(),
            all@ == name@,
            kept@ == at_most(name@.take(i as int).filter(printable()), 20),
        decreases all.len() - i,
    {
        proof {
            reveal(Seq::filter);
            assert(name@.take(i + 1).drop_last() =~= name@.take(i as int));
            let before = name@.take(i as int).filter(printable());
            assert(before.len() >= 20 ==> before.push(all@[i as int]).take(20) =~= before.take(20));
        }
        if !control(all[i]) && kept.len() < 20 {
            kept.push(all[i]);
        }
        i += 1;
    }
    assert(name@.take(i as int) =~= name@);
    let short = trim(text_of(&kept, 0, kept.len()).as_str());
    assert(kept@.subrange(0, kept@.len() as int) =~= kept@);
    if short.as_str().unicode_len() == 0 {
        "Player".to_owned()
    } else {
        short
    }
}

fn emit(out: &mut Vec<Out>, o: Out)
    ensures
        outs(final(out)@) == outs(old(out)@).push(o@),
{
    let ghost before = out@;
    out.push(o);
    assert(outs(out@) =~= outs(before).push(o@));
}

fn err(out: &mut Vec<Out>, id: u32, message: &str)
    ensures
        outs(final(out)@) == outs(old(out)@).push(
            OutView::To(id as int, ServerMsgView::Error { message: message@ }),
        ),
{
    emit(out, Out::To(id, ServerMsg::Error { message: message.to_owned() }));
}

/// Tells the connection that asked no.
fn turn_away(out: &mut Vec<Out>, message: &str)
    ensures
        outs(final(out)@) == outs(old(out)@).push(
            OutView::Reply(ServerMsgView::Error { message: message@ }),
        ),
{
    emit(out, Out::Reply(ServerMsg::Error { message: message.to_owned() }));
}

/// How long a round lasts under a mutator.
fn round_secs_of(config: Config, mutator: &str) -> (secs: u32)
    ensures
        secs == round_secs(config, mutator@),
{
    if same(mutator, "lightning") {
        config.round_secs / 3
    } else {
        config.round_secs
    }
}

/// Puts an entry where its score belongs, behind those that score the same.
fn file_entry(results: &mut Vec<RoundEntry>, e: RoundEntry)
    ensures
        entries(final(results)@) == entries(old(results)@).insert(
            place(entries(old(results)@), entry_score(), e@.score),
            e@,
        ),
{
    let ghost before = results@;
    let mut at: usize = 0;
    while at < results.len() && results[at].score >= e.score
        invariant
            at <= results.len(),
            results@ == before,
            forall|j: int| 0 <= j < at ==> (#[trigger] before[j]).score >= e.score,
        decreases results.len() - at,
    {
        at += 1;
    }
    proof {
        assert forall|j: int| 0 <= j < at implies entry_score()(#[trigger] entries(before)[j])
            >= e@.score by {
            assert(before[j].score >= e.score);
        }
        lemma_place(entries(before), entry_score(), e@.score, at as int);
    }
    results.insert(at, e);
    assert(entries(results@) =~= entries(before).insert(at as int, e@));
}

/// Puts a standing where its total belongs, behind those with the same.
fn file_standing(rows: &mut Vec<Standing>, s: Standing)
    ensures
        standings(final(rows)@) == standings(old(rows)@).insert(
            place(standings(old(rows)@), standing_total(), s@.total),
            s@,
        ),
{
    let ghost before = rows@;
    let mut at: usize = 0;
    while at < rows.len() && rows[at].total >= s.total
        invariant
            at <= rows.len(),
            rows@ == before,
            forall|j: int| 0 <= j < at ==> (#[trigger] before[j]).total >= s.total,
        decreases rows.len() - at,
    {
        at += 1;
    }
    proof {
        assert forall|j: int| 0 <= j < at implies standing_total()(#[trigger] standings(before)[j])
            >= s@.total by {
            assert(before[j].total >= s.total);
        }
        lemma_place(standings(before), standing_total(), s@.total, at as int);
    }
    rows.insert(at, s);
    assert(standings(rows@) =~= standings(before).insert(at as int, s@));
}

fn reset_rounds(players: &mut Vec<Player>)
    ensures
        players_of(final(players)@) == players_of(old(players)@).map_values(round_reset()),
{
    let ghost was = players@;
    let mut i: usize = 0;
    while i < players.len()
        invariant
            i <= players.len(),
            players.len() == was.len(),
            forall|j: int| 0 <= j < i ==> (#[trigger] players@[j])@ == was[j]@.reset(),
            forall|j: int| i <= j < was.len() ==> #[trigger] players@[j] == was[j],
        decreases players.len() - i,
    {
        players[i].reset_round();
        i += 1;
    }
    assert(players_of(players@) =~= players_of(was).map_values(round_reset()));
}

/// Whether a round of this lobby can be scored at `now`.
spec fn can_finish(lobby: LobbyView, now: int) -> bool {
    &&& lobby.valid()
    &&& lobby.timer_gen < u64::MAX
    &&& now + lobby.settings.intermission_ms <= u64::MAX
}

/// Whether a step is what happened.
spec fn took(
    step: Step,
    lobby: LobbyView,
    rng: RngView,
    before: Seq<OutView>,
    after: Seq<OutView>,
) -> bool {
    &&& lobby == step.lobby
    &&& rng == step.rng
    &&& after == before + step.outs
}

/// How many of these players have found Waldo.
fn count_found(players: &Vec<Player>) -> (n: usize)
    ensures
        n == finders(players_of(players@)),
        n <= players.len(),
{
    let mut n: usize = 0;
    let mut i: usize = 0;
    let ghost v = players_of(players@);
    while i < players.len()
        invariant
            n <= i <= players.len(),
            v == players_of(players@),
            n == finders(v.take(i as int)),
        decreases players.len() - i,
    {
        proof {
            assert(v.take(i + 1).drop_last() =~= v.take(i as int));
            assert(v[i as int] == players@[i as int]@);
        }
        if players[i].found_rank > 0 {
            n += 1;
        }
        i += 1;
    }
    assert(v.take(i as int) =~= v);
    n
}

/// Which of the first `n` members of the cast a click hit.
fn nearest_of(ranges: &Vec<u32>, n: usize) -> (r: Option<usize>)
    requires
        n <= ranges.len(),
    ensures
        match r {
            Some(i) => i < n && nearest(ranges@, n as int) == Some(i as int),
            None => nearest(ranges@, n as int) is None,
        },
{
    if n == 0 {
        return None;
    }
    let mut best: usize = 0;
    let mut i: usize = 1;
    while i < n
        invariant
            best < i <= n <= ranges.len(),
            forall|j: int| 0 <= j < i ==> ranges@[best as int] <= #[trigger] ranges@[j],
            forall|j: int| 0 <= j < best ==> ranges@[best as int] < #[trigger] ranges@[j],
        decreases n - i,
    {
        if ranges[i] < ranges[best] {
            best = i;
        }
        i += 1;
    }
    if ranges[best] <= WALDO_HIT_RADIUS {
        proof {
            assert(is_nearest(ranges@, n as int, best as int));
            let c = choose|c: int| is_nearest(ranges@, n as int, c);
            assert(ranges@[c] <= ranges@[best as int]);
        }
        Some(best)
    } else {
        None
    }
}

/// Who a member of the cast is: anyone unknown counts as Odlaw.
fn target_name(role: &str) -> (target: &'static str)
    ensures
        target@ == target_of(role@),
{
    if same(role, "wenda") {
        "wenda"
    } else if same(role, "woof") {
        "woof"
    } else if same(role, "wizard") {
        "wizard"
    } else {
        "odlaw"
    }
}

/// What hitting a member of the cast is worth.
fn points_for(role: &str) -> (points: i32)
    ensures
        points == target_points(role@),
{
    if same(role, "wenda") {
        BONUS_WENDA as i32
    } else if same(role, "woof") {
        BONUS_WOOF as i32
    } else if same(role, "wizard") {
        BONUS_WIZARD as i32
    } else {
        -(ODLAW_PENALTY as i32)
    }
}

fn reset_totals(players: &mut Vec<Player>)
    ensures
        players_of(final(players)@) == players_of(old(players)@).map_values(total_reset()),
{
    let ghost was = players@;
    let mut i: usize = 0;
    while i < players.len()
        invariant
            i <= players.len(),
            players.len() == was.len(),
            forall|j: int| 0 <= j < i ==> (#[trigger] players@[j])@ == total_reset()(was[j]@),
            forall|j: int| i <= j < was.len() ==> #[trigger] players@[j] == was[j],
        decreases players.len() - i,
    {
        players[i].total = 0;
        i += 1;
    }
    assert(players_of(players@) =~= players_of(was).map_values(total_reset()));
}

/// Drops the players of this id and keeps the others in order.
fn drop_id(players: &mut Vec<Player>, id: u32)
    ensures
        players_of(final(players)@) == players_of(old(players)@).filter(lacks_id(id as int)),
{
    let ghost was = players_of(players@);
    let ghost mut seen: int = 0;
    let mut i: usize = 0;
    proof {
        assert(was.take(0).filter(lacks_id(id as int)) =~= Seq::empty()) by {
            reveal(Seq::filter);
        }
        assert(was.skip(0) =~= was);
        assert(players_of(players@) =~= Seq::empty() + was);
    }
    while i < players.len()
        invariant
            i <= players.len(),
            0 <= seen <= was.len(),
            i == was.take(seen).filter(lacks_id(id as int)).len(),
            players_of(players@) == was.take(seen).filter(lacks_id(id as int)) + was.skip(seen),
        decreases was.len() - seen,
    {
        let ghost kept = was.take(seen).filter(lacks_id(id as int));
        let ghost now = players@;
        proof {
            reveal(Seq::filter);
            assert(players_of(now).len() == kept.len() + was.len() - seen);
            assert(players_of(now)[i as int] == was[seen]);
            assert(was.take(seen + 1).drop_last() =~= was.take(seen));
        }
        if players[i].id == id {
            players.remove(i);
            proof {
                assert forall|j: int| 0 <= j < players@.len() implies #[trigger] players_of(
                    players@,
                )[j] == (kept + was.skip(seen + 1))[j] by {
                    let k = if j < i {
                        j
                    } else {
                        j + 1
                    };
                    assert(players@[j] == now[k]);
                    assert(players_of(now)[k] == (kept + was.skip(seen))[k]);
                    if j >= i {
                        assert(was.skip(seen)[k - i] == was.skip(seen + 1)[j - i]);
                    }
                }
                assert(players_of(players@) =~= kept + was.skip(seen + 1));
            }
        } else {
            i += 1;
            assert(players_of(players@) =~= kept.push(was[seen]) + was.skip(seen + 1));
        }
        proof {
            seen = seen + 1;
        }
    }
    assert(was.take(seen) =~= was);
    assert(players_of(players@) =~= was.filter(lacks_id(id as int)));
}

impl Lobby {
    pub fn new(code: String, settings: Settings) -> (lobby: Self)
        ensures
            lobby@ == LobbyView::opened(code@, settings@),
            lobby@.valid(),
    {
        let lobby = Lobby {
            code,
            players: Vec::new(),
            config: Config::default(),
            phase: Phase::Waiting,
            round: 0,
            seed: 0,
            round_ends_ms: 0,
            found: 0,
            waldo: Spot { x: 0, y: 0, z: 0 },
            cast: Vec::new(),
            mutator: String::new(),
            round_len_ms: 0,
            timer_gen: 0,
            settings,
        };
        assert(lobby@.players =~= Seq::empty());
        assert(lobby@.cast =~= Seq::empty());
        lobby
    }

    pub fn code(&self) -> (code: &str)
        ensures
            code@ == self@.code,
    {
        self.code.as_str()
    }

    pub fn phase(&self) -> (phase: Phase)
        ensures
            phase == self@.phase,
    {
        self.phase
    }

    pub fn is_empty(&self) -> (r: bool)
        ensures
            r == (self@.players.len() == 0),
    {
        self.players.len() == 0
    }

    pub fn player_count(&self) -> (n: usize)
        ensures
            n == self@.players.len(),
    {
        self.players.len()
    }

    fn index_of(&self, id: u32) -> (r: Option<usize>)
        ensures
            match r {
                Some(i) => self@.find(id as int) == Some(i as int) && i < self.players@.len()
                    && self.players@[i as int]@.id == id,
                None => self@.find(id as int) is None,
            },
    {
        let mut i: usize = 0;
        while i < self.players.len()
            invariant
                i <= self.players.len(),
                forall|j: int| 0 <= j < i ==> (#[trigger] self.players@[j])@.id != id,
            decreases self.players.len() - i,
        {
            if self.players[i].id == id {
                proof {
                    let v = self@.players;
                    assert(v[i as int].id == id);
                    assert forall|j: int| 0 <= j < i implies !has_id(id as int)(
                        #[trigger] v[j],
                    ) by {
                        assert(self.players@[j]@.id != id);
                    }
                    lemma_first(v, has_id(id as int), i as int);
                }
                return Some(i);
            }
            i += 1;
        }
        proof {
            let v = self@.players;
            assert forall|j: int| 0 <= j < v.len() implies !has_id(id as int)(
                #[trigger] v[j],
            ) by {
                assert(self.players@[j]@.id != id);
            }
            lemma_first_none(v, has_id(id as int));
        }
        None
    }

    fn all_connected_found(&self) -> (r: bool)
        ensures
            r == self@.all_connected_found(),
    {
        let mut i: usize = 0;
        let mut connected = false;
        while i < self.players.len()
            invariant
                i <= self.players.len(),
                connected == exists|j: int| 0 <= j < i && (#[trigger] self@.players[j]).connected,
                forall|j: int|
                    0 <= j < i && (#[trigger] self@.players[j]).connected
                        ==> self@.players[j].found_rank > 0,
            decreases self.players.len() - i,
        {
            assert(self@.players[i as int] == self.players@[i as int]@);
            if self.players[i].connected {
                if self.players[i].found_rank == 0 {
                    return false;
                }
                connected = true;
            }
            i += 1;
        }
        connected
    }

    fn is_host(&self, id: u32) -> (r: bool)
        ensures
            r == self@.is_host(id as int),
    {
        self.players.len() > 0 && self.players[0].id == id
    }

    fn leaderboard(&self) -> (rows: Vec<Standing>)
        ensures
            standings(rows@) == self@.leaderboard(),
    {
        let mut rows: Vec<Standing> = Vec::new();
        let ghost all = self@.players.map_values(standing_of());
        let mut i: usize = 0;
        assert(standings(rows@) =~= all.take(0));
        while i < self.players.len()
            invariant
                i <= self.players.len(),
                all == self@.players.map_values(standing_of()),
                standings(rows@) == ranked(all.take(i as int), standing_total()),
            decreases self.players.len() - i,
        {
            let p = &self.players[i];
            proof {
                assert(all.take(i + 1).drop_last() =~= all.take(i as int));
                assert(self@.players[i as int] == p@);
            }
            file_standing(&mut rows, Standing { id: p.id, name: p.name.clone(), total: p.total });
            i += 1;
        }
        assert(all.take(i as int) =~= all);
        rows
    }

    fn restore_for(&self, id: u32) -> (r: Option<ServerMsg>)
        requires
            self@.valid(),
        ensures
            match r {
                Some(msg) => self@.find(id as int) is Some && msg@ == self@.restored(
                    self@.find(id as int)->0,
                ),
                None => self@.find(id as int) is None,
            },
    {
        match self.index_of(id) {
            None => None,
            Some(i) => {
                let p = &self.players[i];
                assert(self@.players[i as int] == p@);
                Some(
                    ServerMsg::Restore {
                        round: self.round,
                        total_rounds: self.config.rounds,
                        seed: self.seed,
                        round_secs: (self.round_len_ms / 1000) as u32,
                        mutator: self.mutator.clone(),
                        ends_at_ms: self.round_ends_ms,
                        found_rank: p.found_rank,
                        misses: p.misses,
                        wenda: p.wenda,
                        woof: p.woof,
                        wizard: p.wizard,
                        odlaw: p.odlaw,
                    },
                )
            },
        }
    }

    fn roster(&self) -> (players: Vec<PlayerInfo>)
        ensures
            infos(players@) == self@.roster(),
    {
        let mut players: Vec<PlayerInfo> = Vec::new();
        let mut i: usize = 0;
        while i < self.players.len()
            invariant
                i <= self.players.len(),
                players.len() == i,
                forall|j: int| 0 <= j < i ==> (#[trigger] players@[j])@ == self@.roster()[j],
            decreases self.players.len() - i,
        {
            let p = &self.players[i];
            assert(self@.players[i as int] == p@);
            players.push(
                PlayerInfo {
                    id: p.id,
                    name: p.name.clone(),
                    is_host: i == 0,
                    connected: p.connected,
                },
            );
            i += 1;
        }
        assert(infos(players@) =~= self@.roster());
        players
    }

    fn snapshot_for(&self, id: u32) -> (r: Option<ServerMsg>)
        ensures
            match r {
                Some(msg) => self@.find(id as int) is Some && msg@ == self@.snapshot(id as int),
                None => self@.find(id as int) is None,
            },
    {
        match self.index_of(id) {
            None => None,
            Some(i) => {
                assert(self@.players[i as int] == self.players@[i as int]@);
                Some(
                    ServerMsg::Lobby {
                        code: self.code.clone(),
                        you: id,
                        token: self.players[i].token.clone(),
                        players: self.roster(),
                        config: self.config,
                    },
                )
            },
        }
    }

    /// Each player gets a Lobby message carrying their own id and token, so this
    /// cannot be one broadcast.
    fn broadcast_lobby(&self, out: &mut Vec<Out>)
        ensures
            outs(final(out)@) == outs(old(out)@) + self@.broadcast(),
    {
        let ghost before = outs(out@);
        let mut i: usize = 0;
        assert(self@.broadcast().take(0) =~= Seq::empty());
        assert(before + Seq::<OutView>::empty() =~= before);
        while i < self.players.len()
            invariant
                i <= self.players.len(),
                outs(out@) == before + self@.broadcast().take(i as int),
            decreases self.players.len() - i,
        {
            let id = self.players[i].id;
            proof {
                assert(self@.players[i as int].id == id);
                lemma_first_exists(self@.players, has_id(id as int), i as int);
            }
            if let Some(msg) = self.snapshot_for(id) {
                emit(out, Out::To(id, msg));
            }
            proof {
                assert(before + self@.broadcast().take(i + 1) =~= (before
                    + self@.broadcast().take(i as int)).push(self@.broadcast()[i as int]));
            }
            i += 1;
        }
        assert(self@.broadcast().take(i as int) =~= self@.broadcast());
    }

    fn finish_round(&mut self, now_ms: u64, out: &mut Vec<Out>)
        requires
            can_finish(old(self)@, now_ms as int),
        ensures
            final(self)@ == old(self)@.scored_round(),
            outs(final(out)@) == outs(old(out)@) + old(self)@.finish_outs(now_ms as int),
    {
        let ghost was = self@;
        let ghost before = outs(out@);
        let ghost all = was.players.map_values(scored()).map_values(entry_of());
        self.phase = Phase::Intermission;
        self.timer_gen += 1;  // invalidate the round timeout

        let mut results: Vec<RoundEntry> = Vec::new();
        let mut i: usize = 0;
        assert(entries(results@) =~= all.take(0));
        while i < self.players.len()
            invariant
                i <= self.players.len(),
                can_finish(was, now_ms as int),
                all == was.players.map_values(scored()).map_values(entry_of()),
                self.players.len() == was.players.len(),
                forall|j: int|
                    0 <= j < i ==> (#[trigger] self.players@[j])@ == scored()(was.players[j]),
                forall|j: int|
                    i <= j < was.players.len() ==> (#[trigger] self.players@[j])@
                        == was.players[j],
                self@ == (LobbyView {
                    phase: Phase::Intermission,
                    timer_gen: was.timer_gen + 1,
                    players: self@.players,
                    ..was
                }),
                entries(results@) == ranked(all.take(i as int), entry_score()),
            decreases self.players.len() - i,
        {
            proof {
                assert(was.players[i as int].valid());
                law_totals_fit(was, i as int);
            }
            let score = self.players[i].round_score();
            self.players[i].total += score;
            let e = self.players[i].entry();
            proof {
                assert(self.players@[i as int]@ == scored()(was.players[i as int]));
                assert(all.take(i + 1).drop_last() =~= all.take(i as int));
                assert(all[i as int] == e@);
            }
            file_entry(&mut results, e);
            i += 1;
        }
        proof {
            assert(all.take(i as int) =~= all);
            assert(self@.players =~= was.players.map_values(scored()));
        }
        let pause = self.settings.intermission_ms;
        emit(
            out,
            Out::All(
                ServerMsg::RoundResult {
                    round: self.round,
                    waldo: self.waldo,
                    results,
                    next_in_ms: pause,
                },
            ),
        );
        emit(
            out,
            Out::Schedule {
                at_ms: now_ms + pause,
                timer: Timer::Intermission { gen: self.timer_gen },
            },
        );
        assert(outs(out@) =~= before + was.finish_outs(now_ms as int));
    }

    /// Ends the round early once everyone who could still find Waldo has.
    fn finish_if_found(&mut self, now_ms: u64, out: &mut Vec<Out>)
        requires
            can_finish(old(self)@, now_ms as int),
        ensures
            old(self)@.round_is_over() ==> final(self)@ == old(self)@.scored_round() && outs(
                final(out)@,
            ) == outs(old(out)@) + old(self)@.finish_outs(now_ms as int),
            !old(self)@.round_is_over() ==> final(self)@ == old(self)@ && outs(final(out)@)
                == outs(old(out)@),
    {
        if self.phase == Phase::Playing && self.all_connected_found() {
            self.finish_round(now_ms, out);
        }
    }

    fn choose_mutator(&self, rng: &mut Rng) -> (mutator: String)
        ensures
            mutator@ == match self@.settings.mutator {
                Some(m) => m,
                None => drawn_mutator(old(rng)@.picked(9)),
            },
            final(rng)@ == match self@.settings.mutator {
                Some(_) => old(rng)@,
                None => old(rng)@.next(),
            },
    {
        match &self.settings.mutator {
            Some(m) => m.clone(),
            None => {
                match rng.below(9) {
                    0 => "night".to_owned(),
                    1 => "lightning".to_owned(),
                    2 => "crowded".to_owned(),
                    3 => "tiny".to_owned(),
                    _ => "".to_owned(),
                }
            },
        }
    }

    #[verifier::spinoff_prover]
    fn start_round(&mut self, now_ms: u64, rng: &mut Rng, out: &mut Vec<Out>)
        requires
            old(self)@.valid(),
            old(self)@.headroom(now_ms as int),
            old(self)@.round < old(self)@.config.rounds,
        ensures
            ({
                let step = old(self)@.start_round(now_ms as int, old(rng)@);
                &&& final(self)@ == step.lobby
                &&& final(rng)@ == step.rng
                &&& outs(final(out)@) == outs(old(out)@) + step.outs
            }),
    {
        let ghost was = self@;
        let ghost before = outs(out@);
        let ghost step = was.start_round(now_ms as int, rng@);
        self.round += 1;
        self.phase = Phase::Playing;
        self.seed = rng.next_u32();
        self.mutator = self.choose_mutator(rng);
        let secs = round_secs_of(self.config, self.mutator.as_str());
        self.round_len_ms = secs as u64 * 1000;
        self.round_ends_ms = now_ms + self.round_len_ms;
        self.found = 0;
        self.waldo = Spot { x: 0, y: 0, z: 0 };
        self.cast = Vec::new();
        reset_rounds(&mut self.players);
        self.timer_gen += 1;
        emit(
            out,
            Out::All(
                ServerMsg::RoundStart {
                    round: self.round,
                    total_rounds: self.config.rounds,
                    seed: self.seed,
                    round_secs: secs,
                    mutator: self.mutator.clone(),
                    ends_at_ms: self.round_ends_ms,
                },
            ),
        );
        emit(
            out,
            Out::Schedule {
                at_ms: self.round_ends_ms,
                timer: Timer::RoundEnd { gen: self.timer_gen },
            },
        );
        assert(self@.cast =~= Seq::empty());
        assert(outs(out@) =~= before + step.outs);
    }

    /// A player found Waldo, which may end the round.
    #[verifier::spinoff_prover]
    fn found_waldo(&mut self, now_ms: u64, rng: &mut Rng, i: usize, out: &mut Vec<Out>)
        requires
            old(self)@.valid(),
            old(self)@.headroom(now_ms as int),
            i < old(self)@.players.len(),
        ensures
            took(
                old(self)@.found_waldo(now_ms as int, old(rng)@, i as int),
                final(self)@,
                final(rng)@,
                outs(old(out)@),
                outs(final(out)@),
            ),
    {
        let ghost was = self@;
        let ghost before = outs(out@);
        let ghost step = was.found_waldo(now_ms as int, rng@, i as int);
        assert(was.players[i as int] == self.players@[i as int]@);
        assert(was.players[i as int].valid());
        let found: u32 = count_found(&self.players) as u32 + 1;
        let total: u32 = self.players.len() as u32;
        let remaining = self.round_ends_ms.saturating_sub(now_ms);
        let rank: u32 = self.found + 1;
        self.found = rank;
        self.players[i].found_rank = rank;
        self.players[i].found_at_ms = self.round_len_ms.saturating_sub(remaining) as i64;
        let id = self.players[i].id;
        let verdict = self.players[i].verdict("waldo", rank_points(rank) as i32);
        emit(out, verdict);
        emit(out, Out::All(ServerMsg::PlayerFound { id, found, total }));
        let ghost mid = self@;
        let ghost said = seq![
            outs(out@)[before.len() as int],
            outs(out@)[before.len() as int + 1],
        ];
        proof {
            assert(mid.players =~= was.players.update(i as int, self.players@[i as int]@));
            assert(outs(out@) =~= before + said);
            lemma_with_player_valid(was, i as int, mid.players[i as int]);
        }
        self.finish_if_found(now_ms, out);
        assert(outs(out@) =~= before + step.outs);
    }

    /// Judges a click: Waldo first, then the nearest cast member in range, otherwise
    /// a miss.
    #[verifier::spinoff_prover]
    fn click(
        &mut self,
        now_ms: u64,
        rng: &mut Rng,
        id: u32,
        pos: Spot,
        ranges: &Ranges,
        out: &mut Vec<Out>,
    )
        requires
            old(self)@.valid(),
            old(self)@.headroom(now_ms as int),
        ensures
            took(
                old(self)@.click(now_ms as int, old(rng)@, id as int, pos, ranges@),
                final(self)@,
                final(rng)@,
                outs(old(out)@),
                outs(final(out)@),
            ),
    {
        let ghost was = self@;
        let ghost before = outs(out@);
        let ghost step = was.click(now_ms as int, rng@, id as int, pos, ranges@);
        assert(before + Seq::<OutView>::empty() =~= before);
        if self.phase != Phase::Playing || !pos.all_finite() {
            return;
        }
        let i = match self.index_of(id) {
            Some(i) => i,
            None => {
                return;
            },
        };
        assert(was.players[i as int] == self.players@[i as int]@);
        assert(was.players[i as int].valid() && was.players[i as int].headroom());
        if ranges.waldo <= WALDO_HIT_RADIUS {
            if self.players[i].found_rank == 0 {
                self.found_waldo(now_ms, rng, i, out);
            }
            return;  // repeat clicks on Waldo are ignored
        }
        let in_view = if ranges.cast.len() < self.cast.len() {
            ranges.cast.len()
        } else {
            self.cast.len()
        };
        match nearest_of(&ranges.cast, in_view) {
            Some(c) => {
                let role = self.cast[c].0.as_str();
                assert(was.cast[c as int].0 == role@);
                if self.players[i].meet(role) {
                    let verdict = self.players[i].verdict(target_name(role), points_for(role));
                    emit(out, verdict);
                    assert(self@.players =~= step.lobby.players);
                    assert(outs(out@) =~= before + step.outs);
                } else {
                    assert(self@.players =~= was.players);
                }
            },
            None => {
                self.players[i].misses += 1;
                let verdict = self.players[i].verdict("miss", -(MISS_PENALTY as i32));
                emit(out, verdict);
                assert(self@.players =~= step.lobby.players);
                assert(outs(out@) =~= before + step.outs);
            },
        }
    }

    /// A connection dropped: keep the player for the grace period so they can rejoin.
    fn dropped(&mut self, now_ms: u64, rng: &mut Rng, id: u32, out: &mut Vec<Out>)
        requires
            old(self)@.valid(),
            old(self)@.headroom(now_ms as int),
        ensures
            took(
                old(self)@.dropped(now_ms as int, old(rng)@, id as int),
                final(self)@,
                final(rng)@,
                outs(old(out)@),
                outs(final(out)@),
            ),
    {
        let ghost was = self@;
        let ghost before = outs(out@);
        let ghost step = was.dropped(now_ms as int, rng@, id as int);
        assert(before + Seq::<OutView>::empty() =~= before);
        let i = match self.index_of(id) {
            Some(i) => i,
            None => {
                return;
            },
        };
        assert(was.players[i as int] == self.players@[i as int]@);
        assert(was.players[i as int].valid() && was.players[i as int].headroom());
        self.players[i].connected = false;
        self.players[i].disconnect_gen += 1;
        let gen = self.players[i].disconnect_gen;
        assert(self@.players =~= was.players.update(i as int, self.players@[i as int]@));
        proof {
            lemma_with_player_valid(was, i as int, self@.players[i as int]);
        }
        self.broadcast_lobby(out);
        emit(
            out,
            Out::Schedule {
                at_ms: now_ms + self.settings.grace_ms,
                timer: Timer::Grace { player: id, gen },
            },
        );
        self.finish_if_found(now_ms, out);
        assert(outs(out@) =~= before + step.outs);
    }

    /// Remove a player for real: grace expired, or they left deliberately.
    fn hard_remove(&mut self, now_ms: u64, rng: &mut Rng, id: u32, out: &mut Vec<Out>)
        requires
            old(self)@.valid(),
            old(self)@.headroom(now_ms as int),
        ensures
            took(
                old(self)@.removed(now_ms as int, old(rng)@, id as int),
                final(self)@,
                final(rng)@,
                outs(old(out)@),
                outs(final(out)@),
            ),
    {
        let ghost was = self@;
        let ghost before = outs(out@);
        let ghost step = was.removed(now_ms as int, rng@, id as int);
        assert(before + Seq::<OutView>::empty() =~= before);
        let count = self.players.len();
        drop_id(&mut self.players, id);
        assert(self@ == was.without(id as int));
        proof {
            lemma_filter_keeps(was.players, lacks_id(id as int));
            lemma_without_valid(was, id as int);
        }
        if self.players.len() == count {
            return;  // already gone
        }
        emit(out, Out::Unbound(id));
        if self.players.len() == 0 {
            assert(outs(out@) =~= before + step.outs);
            return;
        }
        self.broadcast_lobby(out);
        self.finish_if_found(now_ms, out);
        assert(outs(out@) =~= before + step.outs);
    }

    #[verifier::spinoff_prover]
    fn fired(&mut self, now_ms: u64, rng: &mut Rng, timer: Timer, out: &mut Vec<Out>)
        requires
            old(self)@.valid(),
            old(self)@.headroom(now_ms as int),
        ensures
            took(
                old(self)@.fired(now_ms as int, old(rng)@, timer@),
                final(self)@,
                final(rng)@,
                outs(old(out)@),
                outs(final(out)@),
            ),
    {
        let ghost was = self@;
        let ghost before = outs(out@);
        let ghost step = was.fired(now_ms as int, rng@, timer@);
        assert(before + Seq::<OutView>::empty() =~= before);
        match timer {
            Timer::RoundEnd { gen } => {
                if self.timer_gen == gen && self.phase == Phase::Playing {
                    self.finish_round(now_ms, out);
                }
            },
            Timer::Intermission { gen } => {
                if self.timer_gen != gen || self.phase != Phase::Intermission {
                    return;
                }
                if self.round >= self.config.rounds {
                    let leaderboard = self.leaderboard();
                    emit(out, Out::All(ServerMsg::GameOver { leaderboard }));
                    self.phase = Phase::Waiting;
                    self.round = 0;
                    self.broadcast_lobby(out);
                    assert(outs(out@) =~= before + step.outs);
                } else {
                    self.start_round(now_ms, rng, out);
                }
            },
            Timer::Grace { player, gen } => {
                if let Some(i) = self.index_of(player) {
                    assert(was.players[i as int] == self.players@[i as int]@);
                    if !self.players[i].connected && self.players[i].disconnect_gen == gen {
                        self.hard_remove(now_ms, rng, player, out);
                    }
                }
            },
        }
    }

    /// A newcomer takes a seat.
    fn seat(&mut self, id: u32, name: &str, token: String, out: &mut Vec<Out>)
        ensures
            final(self)@ == old(self)@.seating(id as int, name@, token@),
            outs(final(out)@) == outs(old(out)@) + (seq![OutView::Bound(id as int)]
                + final(self)@.broadcast()),
    {
        let ghost was = self@;
        let ghost before = outs(out@);
        self.players.push(Player::new(id, sanitize_name(name), token));
        assert(self@.players =~= was.seating(id as int, name@, token@).players);
        emit(out, Out::Bound(id));
        self.broadcast_lobby(out);
        assert(outs(out@) =~= before + (seq![OutView::Bound(id as int)] + self@.broadcast()));
    }

    /// The player with this token is back, if there is one.
    #[verifier::spinoff_prover]
    fn rejoin(&mut self, offered: &str, out: &mut Vec<Out>)
        requires
            old(self)@.valid(),
            forall|i: int|
                0 <= i < old(self)@.players.len() ==> (#[trigger] old(
                    self,
                )@.players[i]).headroom(),
        ensures
            forall|rng: RngView|
                #![trigger old(self)@.rejoining(rng, offered@)]
                took(
                    old(self)@.rejoining(rng, offered@),
                    final(self)@,
                    rng,
                    outs(old(out)@),
                    outs(final(out)@),
                ),
    {
        let ghost was = self@;
        let ghost before = outs(out@);
        let mut i: usize = 0;
        while i < self.players.len() && !same(self.players[i].token.as_str(), offered)
            invariant
                i <= self.players.len(),
                self@ == was,
                forall|j: int| 0 <= j < i ==> (#[trigger] was.players[j]).token != offered@,
            decreases self.players.len() - i,
        {
            assert(was.players[i as int] == self.players@[i as int]@);
            i += 1;
        }
        if i == self.players.len() {
            proof {
                lemma_first_none(was.players, has_token(offered@));
            }
            turn_away(out, "session expired");
            assert(outs(out@) =~= before + seq![
                OutView::Reply(ServerMsgView::Error { message: "session expired"@ }),
            ]);
            return;
        }
        assert(was.players[i as int] == self.players@[i as int]@);
        assert(was.players[i as int].valid() && was.players[i as int].headroom());
        proof {
            lemma_first(was.players, has_token(offered@), i as int);
        }
        self.players[i].connected = true;
        self.players[i].disconnect_gen += 1;
        let rejoined = self.players[i].id;
        let ghost mid = self@;
        proof {
            assert(mid.players =~= was.players.update(i as int, self.players@[i as int]@));
            assert(mid.players[i as int].id == rejoined);
            lemma_first_exists(mid.players, has_id(rejoined as int), i as int);
        }
        emit(out, Out::Bound(rejoined));
        self.broadcast_lobby(out);
        let ghost told = seq![OutView::Bound(rejoined as int)] + mid.broadcast();
        assert(outs(out@) =~= before + told);
        if self.phase == Phase::Playing {
            if let Some(r) = self.restore_for(rejoined) {
                emit(out, Out::To(rejoined, r));
            }
            assert(outs(out@) =~= before + told.push(
                OutView::To(rejoined as int, mid.restored(mid.find(rejoined as int)->0)),
            ));
        }
    }

    fn create(
        &mut self,
        rng: &Rng,
        from: Option<u32>,
        name: &str,
        id: u32,
        token: String,
        out: &mut Vec<Out>,
    )
        ensures
            took(
                old(self)@.creating(rng@, widen(from), name@, id as int, token@),
                final(self)@,
                rng@,
                outs(old(out)@),
                outs(final(out)@),
            ),
    {
        let ghost before = outs(out@);
        let ghost step = self@.creating(rng@, widen(from), name@, id as int, token@);
        // A lobby the caller just created is empty; anything else means the
        // connection is trying to create a second one.
        if from.is_some() || self.players.len() > 0 {
            err(out, id, "already in a lobby");
        } else {
            self.seat(id, name, token, out);
        }
        assert(outs(out@) =~= before + step.outs);
    }

    fn join(
        &mut self,
        rng: &Rng,
        from: Option<u32>,
        name: &str,
        id: u32,
        token: String,
        out: &mut Vec<Out>,
    )
        ensures
            took(
                old(self)@.joining(rng@, widen(from), name@, id as int, token@),
                final(self)@,
                rng@,
                outs(old(out)@),
                outs(final(out)@),
            ),
    {
        let ghost before = outs(out@);
        let ghost step = self@.joining(rng@, widen(from), name@, id as int, token@);
        if from.is_some() {
            err(out, id, "already in a lobby");
        } else if self.phase != Phase::Waiting {
            err(out, id, "game already in progress");
        } else if self.players.len() >= self.settings.max_players {
            err(out, id, "lobby is full");
        } else {
            self.seat(id, name, token, out);
        }
        assert(outs(out@) =~= before + step.outs);
    }

    fn configure(&mut self, rng: &Rng, from: Option<u32>, wanted: Config, out: &mut Vec<Out>)
        ensures
            took(
                old(self)@.configuring(rng@, widen(from), wanted),
                final(self)@,
                rng@,
                outs(old(out)@),
                outs(final(out)@),
            ),
    {
        let ghost before = outs(out@);
        let ghost step = self@.configuring(rng@, widen(from), wanted);
        match from {
            None => turn_away(out, "not in a lobby"),
            Some(who) => {
                if !self.is_host(who) {
                    err(out, who, "only the host can change settings");
                } else if self.phase != Phase::Waiting {
                    err(out, who, "cannot change settings mid-game");
                } else {
                    self.config = wanted.clamped();
                    self.broadcast_lobby(out);
                }
            },
        }
        assert(outs(out@) =~= before + step.outs);
    }

    fn start(&mut self, now_ms: u64, rng: &mut Rng, from: Option<u32>, out: &mut Vec<Out>)
        requires
            old(self)@.valid(),
            old(self)@.headroom(now_ms as int),
        ensures
            took(
                old(self)@.starting(now_ms as int, old(rng)@, widen(from)),
                final(self)@,
                final(rng)@,
                outs(old(out)@),
                outs(final(out)@),
            ),
    {
        let ghost was = self@;
        let ghost before = outs(out@);
        let ghost step = was.starting(now_ms as int, rng@, widen(from));
        match from {
            None => turn_away(out, "not in a lobby"),
            Some(who) => {
                if !self.is_host(who) {
                    err(out, who, "only the host can start");
                } else if self.phase != Phase::Waiting {
                    err(out, who, "game already running");
                } else {
                    reset_totals(&mut self.players);
                    self.round = 0;
                    proof {
                        assert forall|j: int| 0 <= j < self@.players.len() implies (
                        #[trigger] self@.players[j]).valid() && self@.players[j].headroom() by {
                            assert(was.players[j].valid() && was.players[j].headroom());
                        }
                    }
                    self.start_round(now_ms, rng, out);
                }
            },
        }
        assert(outs(out@) =~= before + step.outs);
    }

    fn client(
        &mut self,
        now_ms: u64,
        rng: &mut Rng,
        from: Option<u32>,
        msg: ClientMsg,
        id: u32,
        token: String,
        ranges: Ranges,
        out: &mut Vec<Out>,
    )
        requires
            old(self)@.valid(),
            old(self)@.headroom(now_ms as int),
        ensures
            took(
                old(self)@.client(
                    now_ms as int,
                    old(rng)@,
                    widen(from),
                    msg@,
                    id as int,
                    token@,
                    ranges@,
                ),
                final(self)@,
                final(rng)@,
                outs(old(out)@),
                outs(final(out)@),
            ),
    {
        match msg {
            ClientMsg::Create { name } => self.create(rng, from, name.as_str(), id, token, out),
            ClientMsg::Join { code: _, name } => {
                self.join(rng, from, name.as_str(), id, token, out)
            },
            ClientMsg::Rejoin { code: _, token: offered } => {
                if from.is_some() {
                    let ghost before = outs(out@);
                    turn_away(out, "already in a lobby");
                    assert(outs(out@) =~= before + self@.turned_away(
                        rng@,
                        "already in a lobby"@,
                    ).outs);
                } else {
                    let ghost step = self@.rejoining(rng@, offered@);
                    self.rejoin(offered.as_str(), out);
                }
            },
            ClientMsg::Leave => {
                assert(outs(out@) + Seq::<OutView>::empty() =~= outs(out@));
                if let Some(who) = from {
                    self.hard_remove(now_ms, rng, who, out);
                }
            },
            ClientMsg::Configure { rounds, round_secs } => {
                self.configure(rng, from, Config { rounds, round_secs }, out)
            },
            ClientMsg::Start => self.start(now_ms, rng, from, out),
            ClientMsg::Click { pos } => {
                assert(outs(out@) + Seq::<OutView>::empty() =~= outs(out@));
                if let Some(who) = from {
                    self.click(now_ms, rng, who, pos, &ranges, out);
                }
            },
        }
    }

    /// The only way in. `now_ms` is wall-clock milliseconds; `rng` seeds rounds.
    pub fn apply(&mut self, now_ms: u64, rng: &mut Rng, event: Event) -> (out: Vec<Out>)
        requires
            old(self)@.valid(),
            old(self)@.headroom(now_ms as int),
        ensures
            ({
                let step = old(self)@.apply(now_ms as int, old(rng)@, event@);
                &&& final(self)@ == step.lobby
                &&& final(rng)@ == step.rng
                &&& outs(out@) == step.outs
            }),
            final(self)@.valid(),
    {
        let ghost was = self@;
        let ghost step = was.handled(now_ms as int, rng@, event@);
        let mut out: Vec<Out> = Vec::new();
        proof {
            assert(outs(out@) =~= Seq::empty());
            assert(Seq::<OutView>::empty() + step.outs =~= step.outs);
            law_events_keep_lobby_valid(was, now_ms as int, rng@, event@);
        }
        match event {
            Event::Client { from, msg, id, token, ranges } => self.client(
                now_ms,
                rng,
                from,
                msg,
                id,
                token,
                ranges,
                &mut out,
            ),
            Event::Dropped(id) => self.dropped(now_ms, rng, id, &mut out),
            Event::Fired(timer) => self.fired(now_ms, rng, timer, &mut out),
        }
        if self.players.len() == 0 {
            emit(&mut out, Out::Empty);
        }
        out
    }

    /// Whether every counter and clock involved fits its machine word for one more
    /// event at `now_ms`.
    pub fn has_headroom(&self, now_ms: u64) -> (r: bool)
        ensures
            r == self@.headroom(now_ms as int),
    {
        if self.players.len() >= u32::MAX as usize || self.found == u32::MAX || self.timer_gen == u64::MAX || now_ms
            > u64::MAX - self.settings.grace_ms || now_ms > u64::MAX
            - self.settings.intermission_ms || now_ms > u64::MAX - 300_000 {
            return false;
        }
        let mut i: usize = 0;
        while i < self.players.len()
            invariant
                i <= self.players.len(),
                forall|j: int| 0 <= j < i ==> (#[trigger] self@.players[j]).headroom(),
            decreases self.players.len() - i,
        {
            let p = &self.players[i];
            assert(self@.players[i as int] == p@);
            if p.misses == u32::MAX || p.disconnect_gen == u64::MAX {
                assert(!self@.players[i as int].headroom());
                return false;
            }
            i += 1;
        }
        true
    }

    /// Places Waldo and the cast in the world of the round that just started.
    pub fn lay_out(&mut self, waldo: Spot, cast: Vec<(String, Spot)>)
        ensures
            final(self)@ == old(self)@.laid_out(waldo, cast_of(cast@)),
    {
        self.waldo = waldo;
        self.cast = cast;
    }

    /// Where Waldo is this round.
    pub fn waldo(&self) -> (spot: Spot)
        ensures
            spot == self@.waldo,
    {
        self.waldo
    }

    /// The cast of this round, by role and place.
    pub fn cast(&self) -> (cast: &Vec<(String, Spot)>)
        ensures
            cast_of(cast@) == self@.cast,
    {
        &self.cast
    }
}

} // verus!
