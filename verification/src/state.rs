//! What the client knows: what its screens show, and what the renderer draws from.

use vstd::prelude::*;

use crate::lobby::cast_of;
use crate::protocol::{
    entries, infos, standings, Config, PlayerInfo, PlayerInfoView, RoundEntry, RoundEntryView, Spot,
    Standing, StandingView,
};

verus! {

#[derive(Clone, Copy, Debug, PartialEq, Eq, Structural)]
pub enum Screen {
    Menu,
    Lobby,
    Game,
    Results,
    Final,
}

/// How a toast is meant.
#[derive(Clone, Copy, Debug, PartialEq, Eq, Structural)]
pub enum Tone {
    Error,
    Info,
}

/// What a marker on the planet stands for: a find, or a mistake.
#[derive(Clone, Copy, Debug, PartialEq, Eq, Structural)]
pub enum Tint {
    Gold,
    Amber,
}

impl Tint {
    pub open spec fn color(self) -> (u8, u8, u8) {
        match self {
            Tint::Gold => (255, 225, 74),
            Tint::Amber => (232, 160, 32),
        }
    }

    /// Red, green and blue.
    pub fn rgb(self) -> (c: (u8, u8, u8))
        ensures
            c == self.color(),
    {
        match self {
            Tint::Gold => (255, 225, 74),
            Tint::Amber => (232, 160, 32),
        }
    }
}

/// One more than `n`, starting over after the last.
pub open spec fn bumped(n: u32) -> u32 {
    if n == u32::MAX {
        0
    } else {
        (n + 1) as u32
    }
}

/// State the screens are rendered from.
pub struct Ui {
    pub screen: Screen,
    /// Toast text.
    pub status: String,
    pub status_kind: Tone,
    /// Bumped to retrigger the toast timer.
    pub status_seq: u32,
    pub lobby_code: String,
    pub players: Vec<PlayerInfo>,
    pub you: u32,
    pub config: Config,
    pub round: u32,
    pub total_rounds: u32,
    pub shape_name: String,
    pub time_left_ms: i64,
    pub round_len_ms: i64,
    /// Empty = hidden.
    pub found_banner: String,
    /// Empty = hidden.
    pub found_count: String,
    pub results: Vec<RoundEntry>,
    pub results_round: u32,
    pub next_round_at_ms: u64,
    pub is_last_round: bool,
    pub leaderboard: Vec<Standing>,
}

pub struct UiView {
    pub screen: Screen,
    pub status: Seq<char>,
    pub status_kind: Tone,
    pub status_seq: u32,
    pub lobby_code: Seq<char>,
    pub players: Seq<PlayerInfoView>,
    pub you: int,
    pub config: Config,
    pub round: int,
    pub total_rounds: int,
    pub shape_name: Seq<char>,
    pub time_left_ms: int,
    pub round_len_ms: int,
    pub found_banner: Seq<char>,
    pub found_count: Seq<char>,
    pub results: Seq<RoundEntryView>,
    pub results_round: int,
    pub next_round_at_ms: int,
    pub is_last_round: bool,
    pub leaderboard: Seq<StandingView>,
}

impl View for Ui {
    type V = UiView;

    open spec fn view(&self) -> UiView {
        UiView {
            screen: self.screen,
            status: self.status@,
            status_kind: self.status_kind,
            status_seq: self.status_seq,
            lobby_code: self.lobby_code@,
            players: infos(self.players@),
            you: self.you as int,
            config: self.config,
            round: self.round as int,
            total_rounds: self.total_rounds as int,
            shape_name: self.shape_name@,
            time_left_ms: self.time_left_ms as int,
            round_len_ms: self.round_len_ms as int,
            found_banner: self.found_banner@,
            found_count: self.found_count@,
            results: entries(self.results@),
            results_round: self.results_round as int,
            next_round_at_ms: self.next_round_at_ms as int,
            is_last_round: self.is_last_round,
            leaderboard: standings(self.leaderboard@),
        }
    }
}

impl UiView {
    pub open spec fn started() -> UiView {
        UiView {
            screen: Screen::Menu,
            status: Seq::empty(),
            status_kind: Tone::Error,
            status_seq: 0,
            lobby_code: Seq::empty(),
            players: Seq::empty(),
            you: 0,
            config: Config { rounds: 3, round_secs: 90 },
            round: 0,
            total_rounds: 0,
            shape_name: Seq::empty(),
            time_left_ms: 0,
            round_len_ms: 1,
            found_banner: Seq::empty(),
            found_count: Seq::empty(),
            results: Seq::empty(),
            results_round: 0,
            next_round_at_ms: 0,
            is_last_round: false,
            leaderboard: Seq::empty(),
        }
    }

    pub open spec fn toasting(self, text: Seq<char>, kind: Tone) -> UiView {
        UiView {
            status: text,
            status_kind: kind,
            status_seq: bumped(self.status_seq),
            ..self
        }
    }
}

impl Ui {
    pub fn new() -> (ui: Self)
        ensures
            ui@ == UiView::started(),
    {
        let ui = Ui {
            screen: Screen::Menu,
            status: String::new(),
            status_kind: Tone::Error,
            status_seq: 0,
            lobby_code: String::new(),
            players: Vec::new(),
            you: 0,
            config: Config::default(),
            round: 0,
            total_rounds: 0,
            shape_name: String::new(),
            time_left_ms: 0,
            round_len_ms: 1,
            found_banner: String::new(),
            found_count: String::new(),
            results: Vec::new(),
            results_round: 0,
            next_round_at_ms: 0,
            is_last_round: false,
            leaderboard: Vec::new(),
        };
        assert(ui@.players =~= Seq::empty());
        assert(ui@.results =~= Seq::empty());
        assert(ui@.leaderboard =~= Seq::empty());
        ui
    }

    pub fn toast(&mut self, text: String, kind: Tone)
        ensures
            final(self)@ == old(self)@.toasting(text@, kind),
    {
        self.status = text;
        self.status_kind = kind;
        self.status_seq = self.status_seq.wrapping_add(1);
    }
}

/// What a client has to know of a round's world to play in it.
pub struct Layout {
    pub seed: u32,
    pub shape_name: String,
    pub waldo: Spot,
    pub cast: Vec<(String, Spot)>,
}

pub struct LayoutView {
    pub seed: int,
    pub shape_name: Seq<char>,
    pub waldo: Spot,
    pub cast: Seq<(Seq<char>, Spot)>,
}

impl View for Layout {
    type V = LayoutView;

    open spec fn view(&self) -> LayoutView {
        LayoutView {
            seed: self.seed as int,
            shape_name: self.shape_name@,
            waldo: self.waldo,
            cast: cast_of(self.cast@),
        }
    }
}

/// A marker to put on the planet.
#[derive(Clone, Copy, Debug, PartialEq, Eq, Structural)]
pub struct Ping {
    pub at: Spot,
    pub tint: Tint,
}

/// State the render loop consumes; written as messages arrive.
pub struct Game {
    /// (lobby code, session token) once joined; enables reconnecting.
    pub session: Option<(String, String)>,
    pub reconnect_attempt: u32,
    /// The render loop rebuilds the scene when it changes.
    pub round_id: u32,
    pub world: Option<Layout>,
    pub mutator: String,
    pub ends_at_ms: u64,
    pub playing: bool,
    pub found: bool,
    /// Set by a round's results to show where Waldo was.
    pub reveal: Option<Spot>,
    /// Markers requested by click results.
    pub pings: Vec<Ping>,
}

pub struct GameView {
    pub session: Option<(Seq<char>, Seq<char>)>,
    pub reconnect_attempt: u32,
    pub round_id: u32,
    pub world: Option<LayoutView>,
    pub mutator: Seq<char>,
    pub ends_at_ms: int,
    pub playing: bool,
    pub found: bool,
    pub reveal: Option<Spot>,
    pub pings: Seq<Ping>,
}

pub open spec fn pair(p: Option<(String, String)>) -> Option<(Seq<char>, Seq<char>)> {
    match p {
        Some((code, token)) => Some((code@, token@)),
        None => None,
    }
}

pub open spec fn layout(world: Option<Layout>) -> Option<LayoutView> {
    match world {
        Some(w) => Some(w@),
        None => None,
    }
}

impl View for Game {
    type V = GameView;

    open spec fn view(&self) -> GameView {
        GameView {
            session: pair(self.session),
            reconnect_attempt: self.reconnect_attempt,
            round_id: self.round_id,
            world: layout(self.world),
            mutator: self.mutator@,
            ends_at_ms: self.ends_at_ms as int,
            playing: self.playing,
            found: self.found,
            reveal: self.reveal,
            pings: self.pings@,
        }
    }
}

impl GameView {
    pub open spec fn started() -> GameView {
        GameView {
            session: None,
            reconnect_attempt: 0,
            round_id: 0,
            world: None,
            mutator: Seq::empty(),
            ends_at_ms: 0,
            playing: false,
            found: false,
            reveal: None,
            pings: Seq::empty(),
        }
    }
}

impl Game {
    pub fn new() -> (game: Self)
        ensures
            game@ == GameView::started(),
    {
        let game = Game {
            session: None,
            reconnect_attempt: 0,
            round_id: 0,
            world: None,
            mutator: String::new(),
            ends_at_ms: 0,
            playing: false,
            found: false,
            reveal: None,
            pings: Vec::new(),
        };
        assert(game@.pings =~= Seq::empty());
        game
    }
}

/// A client starts at the menu with nothing: no session, no world, no round, nobody, and
/// nothing to say.
pub proof fn law_clients_start_with_nothing()
    ensures
        ({
            let ui = UiView::started();
            &&& ui.screen == Screen::Menu
            &&& ui.status.len() == 0
            &&& ui.status_seq == 0
            &&& ui.lobby_code.len() == 0
            &&& ui.players.len() == 0
            &&& ui.config.rounds == 3 && ui.config.round_secs == 90
            &&& ui.round == 0 && ui.total_rounds == 0 && ui.results_round == 0
            &&& ui.round_len_ms == 1 && ui.time_left_ms == 0
            &&& ui.found_banner.len() == 0 && ui.found_count.len() == 0
            &&& ui.results.len() == 0 && ui.leaderboard.len() == 0
            &&& !ui.is_last_round
        }),
        ({
            let game = GameView::started();
            &&& game.session is None && game.world is None && game.reveal is None
            &&& game.reconnect_attempt == 0 && game.round_id == 0 && game.ends_at_ms == 0
            &&& !game.playing && !game.found
            &&& game.mutator.len() == 0 && game.pings.len() == 0
        }),
{
}

/// A toast changes what is said, how it is meant, and the count that restarts its timer, and
/// nothing else on screen.
pub proof fn law_toasts_change_only_the_toast(ui: UiView, text: Seq<char>, kind: Tone)
    ensures
        ({
            let after = ui.toasting(text, kind);
            &&& after.status == text
            &&& after.status_kind == kind
            &&& after.status_seq != ui.status_seq
            &&& ui.status_seq < 0xffff_ffff ==> after.status_seq == ui.status_seq + 1
            &&& ui == (UiView {
                status: ui.status,
                status_kind: ui.status_kind,
                status_seq: ui.status_seq,
                ..after
            })
        }),
        bumped(0xffff_ffff) == 0,
{
}

/// A find is marked in gold and a mistake in amber.
pub proof fn law_markers_are_gold_or_amber()
    ensures
        Tint::Gold.color() == (0xffu8, 0xe1u8, 0x4au8),
        Tint::Amber.color() == (0xe8u8, 0xa0u8, 0x20u8),
{
}

} // verus!
