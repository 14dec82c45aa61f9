//! Message handling: turns a message from the lobby into what the screens show and
//! the renderer draws.
//!
//! How the message arrived is `netplay`'s business. This module is the half that is
//! the same whether we host the lobby or joined one, which is why the host feeds its
//! own lobby's output through here too.

use vstd::prelude::*;

use crate::model::PlayerView;
use crate::ordering::{first, lemma_first, lemma_first_none};
use crate::protocol::{
    Config, PlayerInfoView, RoundEntryView, ServerMsg, ServerMsgView, Spot, StandingView,
};
use crate::scoring::{rank_points, rank_value};
use crate::session::{law_stored_session_comes_back, recalled, save_session, stored};
use crate::state::{
    bumped, layout, Game, GameView, Layout, LayoutView, Ping, Screen, Tint, Tone, Ui, UiView,
};
use crate::text::{decimal, push_decimal, push_signed, same, signed_decimal};

verus! {

/// What is to become of the session kept for a page refresh.
pub enum Keep {
    AsIs,
    Save(String),
    Forget,
}

pub enum KeepView {
    AsIs,
    Save(Seq<char>),
    Forget,
}

impl View for Keep {
    type V = KeepView;

    open spec fn view(&self) -> KeepView {
        match *self {
            Keep::AsIs => KeepView::AsIs,
            Keep::Save(text) => KeepView::Save(text@),
            Keep::Forget => KeepView::Forget,
        }
    }
}

/// The client after a message, and what is to become of the kept session.
pub struct Handled {
    pub ui: UiView,
    pub game: GameView,
    pub keep: KeepView,
}

/// Whether a message starts or resumes a round, whose world must then be built.
pub open spec fn opens_round(msg: ServerMsgView) -> bool {
    msg is RoundStart || msg is Restore
}

/// The seed and mutator of the world that a message calls for.
pub fn world_wanted(msg: &ServerMsg) -> (r: Option<(u32, String)>)
    ensures
        match r {
            Some((seed, mutator)) => wanted(msg@) == Some((seed as int, mutator@)),
            None => wanted(msg@) is None,
        },
        match r {
            Some((seed, mutator)) => match msg@ {
                ServerMsgView::RoundStart { seed: s, mutator: m, .. } => seed == s && mutator@ == m,
                ServerMsgView::Restore { seed: s, mutator: m, .. } => seed == s && mutator@ == m,
                _ => false,
            },
            None => !opens_round(msg@),
        },
{
    match msg {
        ServerMsg::RoundStart { seed, mutator, .. } => Some((*seed, mutator.clone())),
        ServerMsg::Restore { seed, mutator, .. } => Some((*seed, mutator.clone())),
        _ => None,
    }
}

/// The seed and mutator of the world that a message calls for, if it opens a round.
pub open spec fn wanted(msg: ServerMsgView) -> Option<(int, Seq<char>)> {
    match msg {
        ServerMsgView::RoundStart { seed, mutator, .. } => Some((seed, mutator)),
        ServerMsgView::Restore { seed, mutator, .. } => Some((seed, mutator)),
        _ => None,
    }
}

/// What a mutator is announced with, if it has a name.
pub open spec fn mutator_label(mutator: Seq<char>) -> Option<Seq<char>> {
    if mutator == "night"@ {
        Some("Night round · your cursor is a searchlight"@)
    } else if mutator == "lightning"@ {
        Some("Lightning round · a third of the time"@)
    } else if mutator == "crowded"@ {
        Some("Crowded round · extra everything"@)
    } else if mutator == "tiny"@ {
        Some("Tiny planet · everyone is very close together"@)
    } else {
        None
    }
}

fn label_of(mutator: &str) -> (label: Option<&'static str>)
    ensures
        match label {
            Some(text) => mutator_label(mutator@) == Some(text@),
            None => mutator_label(mutator@) is None,
        },
{
    if same(mutator, "night") {
        Some("Night round · your cursor is a searchlight")
    } else if same(mutator, "lightning") {
        Some("Lightning round · a third of the time")
    } else if same(mutator, "crowded") {
        Some("Crowded round · extra everything")
    } else if same(mutator, "tiny") {
        Some("Tiny planet · everyone is very close together")
    } else {
        None
    }
}

pub open spec fn found_text(points: int) -> Seq<char> {
    "Found him! +"@ + signed_decimal(points)
        + " · bonus hunt: Wenda, Woof's tail, the Wizard"@
}

fn found_banner(points: i32) -> (text: String)
    ensures
        text@ == found_text(points as int),
{
    let mut text = "Found him! +".to_owned();
    push_signed(&mut text, points);
    text.append(" · bonus hunt: Wenda, Woof's tail, the Wizard");
    text
}

pub open spec fn bonus_text(target: Seq<char>, points: int) -> Seq<char> {
    (if target == "wenda"@ {
        "Wenda"@
    } else if target == "woof"@ {
        "Woof's tail"@
    } else {
        "Wizard Whitebeard"@
    }) + "! +"@ + signed_decimal(points)
}

fn bonus_toast(target: &str, points: i32) -> (text: String)
    ensures
        text@ == bonus_text(target@, points as int),
{
    let mut text = if same(target, "wenda") {
        "Wenda".to_owned()
    } else if same(target, "woof") {
        "Woof's tail".to_owned()
    } else {
        "Wizard Whitebeard".to_owned()
    };
    text.append("! +");
    push_signed(&mut text, points);
    text
}

pub open spec fn odlaw_text(points: int) -> Seq<char> {
    "That's Odlaw! "@ + signed_decimal(points) + " points"@
}

fn odlaw_toast(points: i32) -> (text: String)
    ensures
        text@ == odlaw_text(points as int),
{
    let mut text = "That's Odlaw! ".to_owned();
    push_signed(&mut text, points);
    text.append(" points");
    text
}

pub open spec fn miss_text(points: int, misses: int) -> Seq<char> {
    "Not him! "@ + signed_decimal(points) + " points ("@ + decimal(misses as nat) + (if misses
        == 1 {
        " miss)"@
    } else {
        " misses)"@
    })
}

fn miss_toast(points: i32, misses: u32) -> (text: String)
    ensures
        text@ == miss_text(points as int, misses as int),
{
    let mut text = "Not him! ".to_owned();
    push_signed(&mut text, points);
    text.append(" points (");
    push_decimal(&mut text, misses as u64);
    text.append(
        if misses == 1 {
            " miss)"
        } else {
            " misses)"
        },
    );
    text
}

pub open spec fn count_text(found: int, total: int) -> Seq<char> {
    decimal(found as nat) + "/"@ + decimal(total as nat) + " found him"@
}

fn count_banner(found: u32, total: u32) -> (text: String)
    ensures
        text@ == count_text(found as int, total as int),
{
    let mut text = String::new();
    push_decimal(&mut text, found as u64);
    assert(text@ =~= decimal(found as nat));
    text.append("/");
    push_decimal(&mut text, total as u64);
    text.append(" found him");
    text
}

pub open spec fn plays(role: Seq<char>) -> spec_fn((Seq<char>, Spot)) -> bool {
    |c: (Seq<char>, Spot)| c.0 == role
}

impl LayoutView {
    /// Where a member of the cast is.
    pub open spec fn cast_pos(self, role: Seq<char>) -> Option<Spot> {
        match first(self.cast, plays(role)) {
            Some(i) => Some(self.cast[i].1),
            None => None,
        }
    }
}

impl Layout {
    fn cast_pos(&self, role: &str) -> (pos: Option<Spot>)
        ensures
            pos == self@.cast_pos(role@),
    {
        let mut i: usize = 0;
        while i < self.cast.len()
            invariant
                i <= self.cast.len(),
                forall|j: int| 0 <= j < i ==> (#[trigger] self@.cast[j]).0 != role@,
            decreases self.cast.len() - i,
        {
            assert(self@.cast[i as int].0 == self.cast@[i as int].0@);
            if same(self.cast[i].0.as_str(), role) {
                proof {
                    lemma_first(self@.cast, plays(role@), i as int);
                }
                return Some(self.cast[i].1);
            }
            i += 1;
        }
        proof {
            lemma_first_none(self@.cast, plays(role@));
        }
        None
    }
}

impl GameView {
    /// A marker is put where something is, if the client knows where that is.
    pub open spec fn pinging(self, at: Option<Spot>, tint: Tint) -> GameView {
        match at {
            Some(at) => GameView { pings: self.pings.push(Ping { at, tint }), ..self },
            None => self,
        }
    }

    pub open spec fn cast_pos(self, role: Seq<char>) -> Option<Spot> {
        match self.world {
            Some(w) => w.cast_pos(role),
            None => None,
        }
    }

    pub open spec fn waldo_pos(self) -> Option<Spot> {
        match self.world {
            Some(w) => Some(w.waldo),
            None => None,
        }
    }
}

impl Game {
    fn ping(&mut self, at: Option<Spot>, tint: Tint)
        ensures
            final(self)@ == old(self)@.pinging(at, tint),
    {
        if let Some(at) = at {
            self.pings.push(Ping { at, tint });
        }
    }

    fn cast_pos(&self, role: &str) -> (pos: Option<Spot>)
        ensures
            pos == self@.cast_pos(role@),
    {
        match &self.world {
            Some(w) => w.cast_pos(role),
            None => None,
        }
    }

    fn waldo_pos(&self) -> (pos: Option<Spot>)
        ensures
            pos == self@.waldo_pos(),
    {
        match &self.world {
            Some(w) => Some(w.waldo),
            None => None,
        }
    }
}

/// The client is told no. An expired session also sends it back to the menu.
pub open spec fn on_error(ui: UiView, game: GameView, message: Seq<char>) -> Handled {
    if message == "session expired"@ {
        Handled {
            ui: (UiView { screen: Screen::Menu, ..ui }).toasting(message, Tone::Error),
            game: GameView { session: None, ..game },
            keep: KeepView::Forget,
        }
    } else {
        Handled { ui: ui.toasting(message, Tone::Error), game, keep: KeepView::AsIs }
    }
}

/// The lobby changed. Its screen is shown, except to those who look at results.
pub open spec fn on_lobby(
    ui: UiView,
    game: GameView,
    code: Seq<char>,
    you: int,
    token: Seq<char>,
    players: Seq<PlayerInfoView>,
    config: Config,
) -> Handled {
    Handled {
        ui: UiView {
            lobby_code: code,
            you,
            players,
            config,
            screen: if ui.screen == Screen::Menu {
                Screen::Lobby
            } else {
                ui.screen
            },
            ..ui
        },
        game: GameView { session: Some((code, token)), reconnect_attempt: 0, ..game },
        keep: KeepView::Save(stored(code, token)),
    }
}

/// The screens of a round whose world is known.
pub open spec fn entering(
    ui: UiView,
    round: int,
    total_rounds: int,
    round_secs: int,
    world: LayoutView,
    found_banner: Seq<char>,
) -> UiView {
    UiView {
        round,
        total_rounds,
        shape_name: world.shape_name,
        round_len_ms: round_secs * 1000,
        found_banner,
        found_count: Seq::empty(),
        screen: Screen::Game,
        ..ui
    }
}

/// The state of a round whose world is known.
pub open spec fn playing(
    game: GameView,
    world: LayoutView,
    mutator: Seq<char>,
    ends_at_ms: int,
    found: bool,
) -> GameView {
    GameView {
        world: Some(world),
        mutator,
        ends_at_ms,
        playing: true,
        found,
        reveal: None,
        pings: Seq::empty(),
        round_id: bumped(game.round_id),
        ..game
    }
}

/// When a round ends for this client: when the lobby says, and never later than its
/// own length from now, however the clocks differ.
pub open spec fn local_end(now: int, round_secs: int, ends_at_ms: int) -> int {
    let latest = if now + round_secs * 1000 > u64::MAX {
        u64::MAX as int
    } else {
        now + round_secs * 1000
    };
    if ends_at_ms < latest {
        ends_at_ms
    } else {
        latest
    }
}

pub open spec fn on_click_result(
    ui: UiView,
    game: GameView,
    target: Seq<char>,
    points: int,
    misses: int,
) -> Handled {
    if target == "waldo"@ {
        Handled {
            ui: UiView { found_banner: found_text(points), ..ui },
            game: (GameView { found: true, ..game }).pinging(game.waldo_pos(), Tint::Gold),
            keep: KeepView::AsIs,
        }
    } else if target == "wenda"@ || target == "woof"@ || target == "wizard"@ {
        Handled {
            ui: ui.toasting(bonus_text(target, points), Tone::Info),
            game: game.pinging(game.cast_pos(target), Tint::Gold),
            keep: KeepView::AsIs,
        }
    } else if target == "odlaw"@ {
        Handled {
            ui: ui.toasting(odlaw_text(points), Tone::Error),
            game: game.pinging(game.cast_pos("odlaw"@), Tint::Amber),
            keep: KeepView::AsIs,
        }
    } else {
        Handled {
            ui: ui.toasting(miss_text(points, misses), Tone::Error),
            game,
            keep: KeepView::AsIs,
        }
    }
}

/// What a message does to the client. `world` is the one that the message calls for.
pub open spec fn handled(
    ui: UiView,
    game: GameView,
    now: int,
    msg: ServerMsgView,
    world: Option<LayoutView>,
) -> Handled {
    match msg {
        ServerMsgView::Error { message } => on_error(ui, game, message),
        ServerMsgView::Lobby { code, you, token, players, config } => on_lobby(
            ui,
            game,
            code,
            you,
            token,
            players,
            config,
        ),
        ServerMsgView::RoundStart {
            round,
            total_rounds,
            seed: _,
            round_secs,
            mutator,
            ends_at_ms,
        } => {
            let shown = entering(ui, round, total_rounds, round_secs, world->0, Seq::empty());
            Handled {
                ui: match mutator_label(mutator) {
                    Some(label) => shown.toasting(label, Tone::Info),
                    None => shown,
                },
                game: playing(
                    game,
                    world->0,
                    mutator,
                    local_end(now, round_secs, ends_at_ms),
                    false,
                ),
                keep: KeepView::AsIs,
            }
        },
        ServerMsgView::ClickResult { target, points, round_score: _, misses } => on_click_result(
            ui,
            game,
            target,
            points,
            misses,
        ),
        ServerMsgView::PlayerFound { id: _, found, total } => Handled {
            ui: UiView { found_count: count_text(found, total), ..ui },
            game,
            keep: KeepView::AsIs,
        },
        ServerMsgView::RoundResult { round, waldo, results, next_in_ms } => Handled {
            ui: UiView {
                results,
                results_round: round,
                next_round_at_ms: if now + next_in_ms > u64::MAX {
                    u64::MAX as int
                } else {
                    now + next_in_ms
                },
                is_last_round: ui.round >= ui.total_rounds,
                screen: Screen::Results,
                ..ui
            },
            game: GameView { playing: false, reveal: Some(waldo), ..game },
            keep: KeepView::AsIs,
        },
        ServerMsgView::GameOver { leaderboard } => Handled {
            ui: UiView { leaderboard, screen: Screen::Final, ..ui },
            game,
            keep: KeepView::AsIs,
        },
        ServerMsgView::Restore {
            round,
            total_rounds,
            seed: _,
            round_secs,
            mutator,
            ends_at_ms,
            found_rank,
            misses: _,
            wenda: _,
            woof: _,
            wizard: _,
            odlaw: _,
        } => Handled {
            ui: entering(
                ui,
                round,
                total_rounds,
                round_secs,
                world->0,
                if found_rank > 0 {
                    found_text(rank_value(found_rank))
                } else {
                    Seq::empty()
                },
            ).toasting("Reconnected."@, Tone::Info),
            game: playing(game, world->0, mutator, ends_at_ms, found_rank > 0),
            keep: KeepView::AsIs,
        },
    }
}

/// Puts the screens of a round up.
fn enter(
    ui: &mut Ui,
    round: u32,
    total_rounds: u32,
    round_secs: u32,
    shape_name: String,
    found_banner: String,
)
    ensures
        forall|world: LayoutView|
            world.shape_name == shape_name@ ==> final(ui)@ == #[trigger] entering(
                old(ui)@,
                round as int,
                total_rounds as int,
                round_secs as int,
                world,
                found_banner@,
            ),
{
    ui.round = round;
    ui.total_rounds = total_rounds;
    ui.shape_name = shape_name;
    ui.round_len_ms = round_secs as i64 * 1000;
    ui.found_banner = found_banner;
    ui.found_count = String::new();
    ui.screen = Screen::Game;
}

/// Sets up the state of a round.
fn play(game: &mut Game, world: Layout, mutator: String, ends_at_ms: u64, found: bool)
    ensures
        final(game)@ == playing(old(game)@, world@, mutator@, ends_at_ms as int, found),
{
    game.world = Some(world);
    game.mutator = mutator;
    game.ends_at_ms = ends_at_ms;
    game.playing = true;
    game.found = found;
    game.reveal = None;
    game.pings = Vec::new();
    game.round_id = game.round_id.wrapping_add(1);
}

fn click_result(ui: &mut Ui, game: &mut Game, target: &str, points: i32, misses: u32)
    ensures
        ({
            let h = on_click_result(
                old(ui)@,
                old(game)@,
                target@,
                points as int,
                misses as int,
            );
            final(ui)@ == h.ui && final(game)@ == h.game && h.keep == KeepView::AsIs
        }),
{
    if same(target, "waldo") {
        game.found = true;
        ui.found_banner = found_banner(points);
        let at = game.waldo_pos();
        game.ping(at, Tint::Gold);
    } else if same(target, "wenda") || same(target, "woof") || same(target, "wizard") {
        ui.toast(bonus_toast(target, points), Tone::Info);
        let at = game.cast_pos(target);
        game.ping(at, Tint::Gold);
    } else if same(target, "odlaw") {
        ui.toast(odlaw_toast(points), Tone::Error);
        let at = game.cast_pos("odlaw");
        game.ping(at, Tint::Amber);
    } else {
        ui.toast(miss_toast(points, misses), Tone::Error);
    }
}

/// Takes in a message. A message that opens a round comes with its world.
pub fn handle(
    ui: &mut Ui,
    game: &mut Game,
    now_ms: u64,
    msg: ServerMsg,
    world: Option<Layout>,
) -> (keep: Keep)
    requires
        opens_round(msg@) ==> world is Some,
    ensures
        ({
            let h = handled(old(ui)@, old(game)@, now_ms as int, msg@, layout(world));
            &&& final(ui)@ == h.ui
            &&& final(game)@ == h.game
            &&& keep@ == h.keep
        }),
{
    match msg {
        ServerMsg::Error { message } => {
            let expired = same(message.as_str(), "session expired");
            if expired {
                game.session = None;
                ui.screen = Screen::Menu;
            }
            ui.toast(message, Tone::Error);
            if expired {
                Keep::Forget
            } else {
                Keep::AsIs
            }
        },
        ServerMsg::Lobby { code, you, token, players, config } => {
            let text = save_session(code.as_str(), token.as_str());
            game.session = Some((code.clone(), token));
            game.reconnect_attempt = 0;
            ui.lobby_code = code;
            ui.you = you;
            ui.players = players;
            ui.config = config;
            // don't yank players off results / win screens (rematch broadcast)
            if ui.screen == Screen::Menu || ui.screen == Screen::Lobby {
                ui.screen = Screen::Lobby;
            }
            Keep::Save(text)
        },
        ServerMsg::RoundStart { round, total_rounds, seed: _, round_secs, mutator, ends_at_ms } => {
            if let Some(world) = world {
                enter(
                    ui,
                    round,
                    total_rounds,
                    round_secs,
                    world.shape_name.clone(),
                    String::new(),
                );
                if let Some(label) = label_of(mutator.as_str()) {
                    ui.toast(label.to_owned(), Tone::Info);
                }
                let latest = now_ms.saturating_add(round_secs as u64 * 1000);
                let ends = if ends_at_ms < latest {
                    ends_at_ms
                } else {
                    latest
                };
                play(game, world, mutator, ends, false);
            }
            Keep::AsIs
        },
        ServerMsg::ClickResult { target, points, round_score: _, misses } => {
            click_result(ui, game, target.as_str(), points, misses);
            Keep::AsIs
        },
        ServerMsg::PlayerFound { id: _, found, total } => {
            ui.found_count = count_banner(found, total);
            Keep::AsIs
        },
        ServerMsg::RoundResult { round, waldo, results, next_in_ms } => {
            game.playing = false;
            game.reveal = Some(waldo);
            ui.results = results;
            ui.results_round = round;
            ui.next_round_at_ms = now_ms.saturating_add(next_in_ms);
            ui.is_last_round = ui.round >= ui.total_rounds;
            ui.screen = Screen::Results;
            Keep::AsIs
        },
        ServerMsg::Restore {
            round,
            total_rounds,
            seed: _,
            round_secs,
            mutator,
            ends_at_ms,
            found_rank,
            misses: _,
            wenda: _,
            woof: _,
            wizard: _,
            odlaw: _,
        } => {
            if let Some(world) = world {
                let banner = if found_rank > 0 {
                    found_banner(rank_points(found_rank) as i32)
                } else {
                    String::new()
                };
                enter(
                    ui,
                    round,
                    total_rounds,
                    round_secs,
                    world.shape_name.clone(),
                    banner,
                );
                ui.toast("Reconnected.".to_owned(), Tone::Info);
                play(game, world, mutator, ends_at_ms, found_rank > 0);
            }
            Keep::AsIs
        },
        ServerMsg::GameOver { leaderboard } => {
            ui.leaderboard = leaderboard;
            ui.screen = Screen::Final;
            Keep::AsIs
        },
    }
}

/// The client after leaving its lobby: no session, no world, back at the menu.
pub open spec fn left(ui: UiView, game: GameView) -> Handled {
    Handled {
        ui: UiView {
            found_banner: Seq::empty(),
            found_count: Seq::empty(),
            screen: Screen::Menu,
            ..ui
        },
        game: GameView {
            session: None,
            playing: false,
            found: false,
            world: None,
            round_id: bumped(game.round_id),
            ..game
        },
        keep: KeepView::Forget,
    }
}

/// Deliberately exit the lobby: no reconnect, straight back to the menu. The caller
/// has told the lobby.
pub fn leave(ui: &mut Ui, game: &mut Game) -> (keep: Keep)
    ensures
        ({
            let h = left(old(ui)@, old(game)@);
            &&& final(ui)@ == h.ui
            &&& final(game)@ == h.game
            &&& keep@ == h.keep
        }),
{
    game.session = None;
    game.playing = false;
    game.found = false;
    game.world = None;
    game.round_id = game.round_id.wrapping_add(1);  // renderer tears the scene down
    ui.found_banner = String::new();
    ui.found_count = String::new();
    ui.screen = Screen::Menu;
    Keep::Forget
}

/// Whether clicking is meaningful.
pub open spec fn may_click(game: GameView, link_is_open: bool) -> bool {
    game.playing && !game.found && link_is_open
}

/// True while clicking is meaningful.
pub fn can_click(game: &Game, link_is_open: bool) -> (r: bool)
    ensures
        r == may_click(game@, link_is_open),
        r == (game.playing && !game.found && link_is_open),
{
    game.playing && !game.found && link_is_open
}

/// The client of a joiner who has lost the host.
pub open spec fn without_host(ui: UiView, game: GameView) -> Handled {
    Handled {
        ui: UiView {
            screen: Screen::Menu,
            ..ui.toasting("Lost the connection to the host."@, Tone::Error)
        },
        game: GameView { playing: false, ..game },
        keep: KeepView::AsIs,
    }
}

/// A joiner without its host is back at the menu.
pub fn lose_host(ui: &mut Ui, game: &mut Game)
    ensures
        final(game)@ == without_host(old(ui)@, old(game)@).game,
        final(ui)@ == without_host(old(ui)@, old(game)@).ui,
        final(game)@ == (GameView { playing: false, ..old(game)@ }),
        final(ui)@ == (UiView {
            screen: Screen::Menu,
            ..old(ui)@.toasting("Lost the connection to the host."@, Tone::Error)
        }),
{
    game.playing = false;
    ui.toast("Lost the connection to the host.".to_owned(), Tone::Error);
    ui.screen = Screen::Menu;
}

/// A page refresh finds its way back: what is kept when a lobby message arrives reads
/// back as the session that the client is then in. A code holds no colon.
pub proof fn law_refreshing_finds_the_session(
    ui: UiView,
    game: GameView,
    now: int,
    msg: ServerMsgView,
    world: Option<LayoutView>,
)
    requires
        msg matches ServerMsgView::Lobby { code, .. } && forall|i: int|
            0 <= i < code.len() ==> (#[trigger] code[i]) != ':',
    ensures
        ({
            let after = handled(ui, game, now, msg, world);
            &&& after.keep matches KeepView::Save(text) && recalled(text) == after.game.session
            &&& after.game.session is Some
        }),
{
    if let ServerMsgView::Lobby { code, token, .. } = msg {
        law_stored_session_comes_back(code, token);
    }
}

/// A change in the lobby takes nobody off the results or the win screen, nor out of a
/// round.
pub proof fn law_lobby_changes_do_not_interrupt(
    ui: UiView,
    game: GameView,
    now: int,
    msg: ServerMsgView,
    world: Option<LayoutView>,
)
    requires
        msg is Lobby,
        ui.screen != Screen::Menu,
    ensures
        handled(ui, game, now, msg, world).ui.screen == ui.screen,
{
}

/// A player who has found Waldo, whose round is over or who left cannot click.
pub proof fn law_clicking_needs_a_round(
    ui: UiView,
    game: GameView,
    now: int,
    msg: ServerMsgView,
    world: Option<LayoutView>,
)
    requires
        msg is RoundResult || (msg matches ServerMsgView::ClickResult { target, .. } && target
            == "waldo"@) || (msg matches ServerMsgView::Restore { found_rank, .. } && found_rank
            > 0),
    ensures
        ({
            let after = handled(ui, game, now, msg, world).game;
            !after.playing || after.found
        }),
        !left(ui, game).game.playing,
{
}

/// A round never lasts longer on a client than it is long, however wrong its clock is.
pub proof fn law_clock_skew_is_bounded(now: int, round_secs: int, ends_at_ms: int)
    requires
        0 <= now,
        0 <= round_secs,
    ensures
        local_end(now, round_secs, ends_at_ms) <= ends_at_ms,
        local_end(now, round_secs, ends_at_ms) <= now + round_secs * 1000,
{
}

/// The counter moved on by one, and starts over after the highest.
pub open spec fn is_bumped(n: u32, next: u32) -> bool {
    n < 0xffff_ffff && next == n + 1 || n == 0xffff_ffff && next == 0
}

/// A toast says this, and the toast timer starts anew.
pub open spec fn is_toasting(ui: UiView, after: UiView, text: Seq<char>, kind: Tone) -> bool {
    &&& after.status == text
    &&& after.status_kind == kind
    &&& is_bumped(ui.status_seq, after.status_seq)
}

/// The screens are as they were but for the toast.
pub open spec fn only_toasts(ui: UiView, after: UiView, text: Seq<char>, kind: Tone) -> bool {
    &&& is_toasting(ui, after, text, kind)
    &&& after == (UiView {
        status: after.status,
        status_kind: after.status_kind,
        status_seq: after.status_seq,
        ..ui
    })
}

/// News of the lobby is shown as it came, and is all that changes: the client is in that
/// lobby now, keeps the way back to it, and from the menu goes to its screen.
pub proof fn law_lobby_news_is_shown(
    ui: UiView,
    game: GameView,
    now: int,
    code: Seq<char>,
    you: int,
    token: Seq<char>,
    players: Seq<PlayerInfoView>,
    config: Config,
    world: Option<LayoutView>,
)
    ensures
        ({
            let msg = ServerMsgView::Lobby { code, you, token, players, config };
            let after = handled(ui, game, now, msg, world);
            &&& after.ui == (UiView {
                lobby_code: code,
                you,
                players,
                config,
                screen: after.ui.screen,
                ..ui
            })
            &&& ui.screen == Screen::Menu ==> after.ui.screen == Screen::Lobby
            &&& ui.screen != Screen::Menu ==> after.ui.screen == ui.screen
            &&& after.game == (GameView {
                session: Some((code, token)),
                reconnect_attempt: 0,
                ..game
            })
            &&& after.keep == KeepView::Save(code + ":"@ + token)
        }),
{
    reveal_strlit(":");
    assert(stored(code, token) =~= code + ":"@ + token);
}

/// The client is in this round, in this world, with nothing left over from another: no
/// markers, nothing revealed, no count. Everything else it knows is as before.
pub open spec fn is_in_round(
    ui: UiView,
    game: GameView,
    after: Handled,
    world: LayoutView,
    round: int,
    total_rounds: int,
    round_secs: int,
    mutator: Seq<char>,
) -> bool {
    &&& after.ui == (UiView {
        round,
        total_rounds,
        shape_name: world.shape_name,
        round_len_ms: 1000 * round_secs,
        found_banner: after.ui.found_banner,
        found_count: ""@,
        screen: Screen::Game,
        status: after.ui.status,
        status_kind: after.ui.status_kind,
        status_seq: after.ui.status_seq,
        ..ui
    })
    &&& after.game == (GameView {
        world: Some(world),
        mutator,
        ends_at_ms: after.game.ends_at_ms,
        playing: true,
        found: after.game.found,
        reveal: None,
        pings: Seq::empty(),
        round_id: after.game.round_id,
        ..game
    })
    &&& is_bumped(game.round_id, after.game.round_id)
    &&& after.keep is AsIs
}

/// A round that starts puts the client in it, with Waldo still to be found. It ends when the
/// lobby says, or after its own length where that comes first. A mutator is announced.
pub proof fn law_rounds_open(
    ui: UiView,
    game: GameView,
    now: int,
    round: int,
    total_rounds: int,
    seed: int,
    round_secs: int,
    mutator: Seq<char>,
    ends_at_ms: int,
    world: LayoutView,
)
    ensures
        ({
            let msg = ServerMsgView::RoundStart {
                round,
                total_rounds,
                seed,
                round_secs,
                mutator,
                ends_at_ms,
            };
            let after = handled(ui, game, now, msg, Some(world));
            let ends = after.game.ends_at_ms;
            &&& is_in_round(ui, game, after, world, round, total_rounds, round_secs, mutator)
            &&& !after.game.found
            &&& after.ui.found_banner == ""@
            &&& ends <= ends_at_ms
            &&& ends <= now + 1000 * round_secs
            &&& ends <= 0xffff_ffff_ffff_ffff || ends == ends_at_ms
            &&& ends == ends_at_ms || ends == now + 1000 * round_secs || ends
                == 0xffff_ffff_ffff_ffff < now + 1000 * round_secs
            &&& mutator == "night"@ ==> is_toasting(
                ui,
                after.ui,
                "Night round · your cursor is a searchlight"@,
                Tone::Info,
            )
            &&& mutator == "lightning"@ ==> is_toasting(
                ui,
                after.ui,
                "Lightning round · a third of the time"@,
                Tone::Info,
            )
            &&& mutator == "crowded"@ ==> is_toasting(
                ui,
                after.ui,
                "Crowded round · extra everything"@,
                Tone::Info,
            )
            &&& mutator == "tiny"@ ==> is_toasting(
                ui,
                after.ui,
                "Tiny planet · everyone is very close together"@,
                Tone::Info,
            )
            &&& mutator != "night"@ && mutator != "lightning"@ && mutator != "crowded"@ && mutator
                != "tiny"@ ==> after.ui.status == ui.status && after.ui.status_kind
                == ui.status_kind && after.ui.status_seq == ui.status_seq
        }),
{
    reveal_strlit("");
    assert(""@ =~= Seq::<char>::empty());
    reveal_strlit("night");
    reveal_strlit("lightning");
    reveal_strlit("crowded");
    reveal_strlit("tiny");
    assert("night"@.len() == 5 && "lightning"@.len() == 9 && "crowded"@.len() == 7);
    assert("tiny"@.len() == 4);
}

/// A round come back to puts the client in it, to its end, and with what the player has
/// found of it: if Waldo, then with what that was worth.
pub proof fn law_rounds_resume(
    ui: UiView,
    game: GameView,
    now: int,
    round: int,
    total_rounds: int,
    seed: int,
    round_secs: int,
    mutator: Seq<char>,
    ends_at_ms: int,
    found_rank: int,
    misses: int,
    wenda: bool,
    woof: bool,
    wizard: bool,
    odlaw: bool,
    world: LayoutView,
)
    ensures
        ({
            let msg = ServerMsgView::Restore {
                round,
                total_rounds,
                seed,
                round_secs,
                mutator,
                ends_at_ms,
                found_rank,
                misses,
                wenda,
                woof,
                wizard,
                odlaw,
            };
            let after = handled(ui, game, now, msg, Some(world));
            &&& is_in_round(ui, game, after, world, round, total_rounds, round_secs, mutator)
            &&& after.game.ends_at_ms == ends_at_ms
            &&& is_toasting(ui, after.ui, "Reconnected."@, Tone::Info)
            &&& after.game.found <==> found_rank > 0
            &&& found_rank <= 0 ==> after.ui.found_banner == ""@
            &&& found_rank > 0 ==> after.ui.found_banner == "Found him! +"@ + signed_decimal(
                rank_value(found_rank),
            ) + " · bonus hunt: Wenda, Woof's tail, the Wizard"@
        }),
{
    reveal_strlit("");
    assert(""@ =~= Seq::<char>::empty());
}

/// The client marks the place of the first of the cast who plays that role, if it knows it.
pub open spec fn marks_role(game: GameView, after: GameView, role: Seq<char>, tint: Tint) -> bool {
    &&& after == (GameView { pings: after.pings, ..game })
    &&& game.world is None ==> after.pings == game.pings
    &&& game.world matches Some(w) ==> {
        &&& forall|i: int|
            #![trigger w.cast[i]]
            0 <= i < w.cast.len() && w.cast[i].0 == role && (forall|j: int|
                0 <= j < i ==> (#[trigger] w.cast[j]).0 != role) ==> after.pings
                == game.pings.push(Ping { at: w.cast[i].1, tint })
        &&& (forall|i: int| 0 <= i < w.cast.len() ==> (#[trigger] w.cast[i]).0 != role)
            ==> after.pings == game.pings
    }
}

proof fn lemma_marks_role(game: GameView, role: Seq<char>, tint: Tint)
    ensures
        marks_role(game, game.pinging(game.cast_pos(role), tint), role, tint),
{
    if let Some(w) = game.world {
        assert forall|i: int|
            #![trigger w.cast[i]]
            0 <= i < w.cast.len() && w.cast[i].0 == role && (forall|j: int|
                0 <= j < i ==> (#[trigger] w.cast[j]).0 != role) implies first(
            w.cast,
            plays(role),
        ) == Some(i) by {
            lemma_first(w.cast, plays(role), i);
        }
        if forall|i: int| 0 <= i < w.cast.len() ==> (#[trigger] w.cast[i]).0 != role {
            lemma_first_none(w.cast, plays(role));
        }
    }
}

/// The verdict on a click is shown to the player. Waldo found is a banner and a golden
/// marker on him, a find among the cast a toast and a golden marker on them, and Odlaw a
/// warning and an amber one. A miss is a toast with how many there are. Nothing else changes.
pub proof fn law_verdicts_are_shown(
    ui: UiView,
    game: GameView,
    now: int,
    target: Seq<char>,
    points: int,
    round_score: int,
    misses: int,
    world: Option<LayoutView>,
)
    ensures
        ({
            let msg = ServerMsgView::ClickResult { target, points, round_score, misses };
            let after = handled(ui, game, now, msg, world);
            &&& after.keep is AsIs
            &&& if target == "waldo"@ {
                &&& after.ui == (UiView {
                    found_banner: "Found him! +"@ + signed_decimal(points)
                        + " · bonus hunt: Wenda, Woof's tail, the Wizard"@,
                    ..ui
                })
                &&& after.game == (GameView { found: true, pings: after.game.pings, ..game })
                &&& game.world is None ==> after.game.pings == game.pings
                &&& game.world matches Some(w) ==> after.game.pings == game.pings.push(
                    Ping { at: w.waldo, tint: Tint::Gold },
                )
            } else if target == "wenda"@ {
                &&& only_toasts(
                    ui,
                    after.ui,
                    "Wenda"@ + "! +"@ + signed_decimal(points),
                    Tone::Info,
                )
                &&& marks_role(game, after.game, "wenda"@, Tint::Gold)
            } else if target == "woof"@ {
                &&& only_toasts(
                    ui,
                    after.ui,
                    "Woof's tail"@ + "! +"@ + signed_decimal(points),
                    Tone::Info,
                )
                &&& marks_role(game, after.game, "woof"@, Tint::Gold)
            } else if target == "wizard"@ {
                &&& only_toasts(
                    ui,
                    after.ui,
                    "Wizard Whitebeard"@ + "! +"@ + signed_decimal(points),
                    Tone::Info,
                )
                &&& marks_role(game, after.game, "wizard"@, Tint::Gold)
            } else if target == "odlaw"@ {
                &&& only_toasts(
                    ui,
                    after.ui,
                    "That's Odlaw! "@ + signed_decimal(points) + " points"@,
                    Tone::Error,
                )
                &&& marks_role(game, after.game, "odlaw"@, Tint::Amber)
            } else {
                &&& after.game == game
                &&& is_toasting(ui, after.ui, after.ui.status, Tone::Error)
                &&& only_toasts(
                    ui,
                    after.ui,
                    "Not him! "@ + signed_decimal(points) + " points ("@ + decimal(misses as nat)
                        + (if misses == 1 {
                        " miss)"@
                    } else {
                        " misses)"@
                    }),
                    Tone::Error,
                )
            }
        }),
{
    reveal_strlit("wenda");
    reveal_strlit("woof");
    reveal_strlit("wizard");
    assert("wenda"@.len() == 5 && "woof"@.len() == 4 && "wizard"@.len() == 6);
    lemma_marks_role(game, target, Tint::Gold);
    lemma_marks_role(game, target, Tint::Amber);
}

/// What everyone is told of a find, a round's end or the game's end is shown to each: the
/// count; the results, where Waldo was and when it goes on; the standings. A round's end
/// stops the play, and nothing else of the game changes.
pub proof fn law_announcements_are_shown(
    ui: UiView,
    game: GameView,
    now: int,
    id: int,
    found: int,
    total: int,
    round: int,
    waldo: Spot,
    results: Seq<RoundEntryView>,
    next_in_ms: int,
    leaderboard: Seq<StandingView>,
    world: Option<LayoutView>,
)
    ensures
        ({
            let msg = ServerMsgView::PlayerFound { id, found, total };
            let after = handled(ui, game, now, msg, world);
            &&& after.ui == (UiView {
                found_count: decimal(found as nat) + "/"@ + decimal(total as nat)
                    + " found him"@,
                ..ui
            })
            &&& after.game == game
            &&& after.keep is AsIs
        }),
        ({
            let msg = ServerMsgView::RoundResult { round, waldo, results, next_in_ms };
            let after = handled(ui, game, now, msg, world);
            &&& after.ui == (UiView {
                results,
                results_round: round,
                next_round_at_ms: after.ui.next_round_at_ms,
                is_last_round: after.ui.is_last_round,
                screen: Screen::Results,
                ..ui
            })
            &&& now + next_in_ms <= u64::MAX ==> after.ui.next_round_at_ms == now + next_in_ms
            &&& now + next_in_ms > u64::MAX ==> after.ui.next_round_at_ms == u64::MAX
            &&& after.ui.is_last_round <==> ui.round >= ui.total_rounds
            &&& after.game == (GameView { playing: false, reveal: Some(waldo), ..game })
            &&& after.keep is AsIs
        }),
        ({
            let msg = ServerMsgView::GameOver { leaderboard };
            let after = handled(ui, game, now, msg, world);
            &&& after.ui == (UiView { leaderboard, screen: Screen::Final, ..ui })
            &&& after.game == game
            &&& after.keep is AsIs
        }),
{
}

/// A refusal is shown in its own words. If the session has expired, the client is back at the
/// menu without it and does not try again; otherwise it is where it was.
pub proof fn law_refusals_are_shown(
    ui: UiView,
    game: GameView,
    now: int,
    message: Seq<char>,
    world: Option<LayoutView>,
)
    ensures
        ({
            let after = handled(ui, game, now, ServerMsgView::Error { message }, world);
            if message == "session expired"@ {
                &&& only_toasts(
                    UiView { screen: Screen::Menu, ..ui },
                    after.ui,
                    message,
                    Tone::Error,
                )
                &&& after.game == (GameView { session: None, ..game })
                &&& after.keep is Forget
            } else {
                &&& only_toasts(ui, after.ui, message, Tone::Error)
                &&& after.game == game
                &&& after.keep is AsIs
            }
        }),
{
}

/// Who leaves is at the menu with no session to come back to, in no round and no world. The
/// scene is torn down.
pub proof fn law_leaving_clears_the_client(ui: UiView, game: GameView)
    ensures
        ({
            let after = left(ui, game);
            &&& after.ui == (UiView {
                found_banner: ""@,
                found_count: ""@,
                screen: Screen::Menu,
                ..ui
            })
            &&& after.game == (GameView {
                session: None,
                playing: false,
                found: false,
                world: None,
                round_id: after.game.round_id,
                ..game
            })
            &&& is_bumped(game.round_id, after.game.round_id)
            &&& after.keep is Forget
        }),
{
    reveal_strlit("");
    assert(""@ =~= Seq::<char>::empty());
}

/// A player can click in a round, as long as they have not found Waldo and the lobby hears
/// them.
pub proof fn law_clicks_wait_for_waldo(game: GameView, link_is_open: bool)
    ensures
        may_click(game, link_is_open) ==> game.playing && !game.found && link_is_open,
        game.playing && !game.found ==> may_click(game, true),
{
}

/// Who loses the host is told so at the menu and plays no more, but keeps the session to come
/// back by.
pub proof fn law_lost_hosts_end_the_play(ui: UiView, game: GameView)
    ensures
        ({
            let after = without_host(ui, game);
            &&& only_toasts(
                UiView { screen: Screen::Menu, ..ui },
                after.ui,
                "Lost the connection to the host."@,
                Tone::Error,
            )
            &&& after.game == (GameView { playing: false, ..game })
            &&& after.game.session == game.session
        }),
{
}

/// The world of a round is wanted exactly when one opens: the one everyone was told of when
/// it started, also by those who come back to it.
pub proof fn law_rounds_want_their_world(
    msg: ServerMsgView,
    round: int,
    total_rounds: int,
    seed: int,
    round_secs: int,
    mutator: Seq<char>,
    ends_at_ms: int,
    p: PlayerView,
)
    ensures
        wanted(
            ServerMsgView::RoundStart {
                round,
                total_rounds,
                seed,
                round_secs,
                mutator,
                ends_at_ms,
            },
        ) == Some((seed, mutator)),
        wanted(
            ServerMsgView::Restore {
                round,
                total_rounds,
                seed,
                round_secs,
                mutator,
                ends_at_ms,
                found_rank: p.found_rank,
                misses: p.misses,
                wenda: p.wenda,
                woof: p.woof,
                wizard: p.wizard,
                odlaw: p.odlaw,
            },
        ) == Some((seed, mutator)),
        wanted(msg) is Some <==> msg is RoundStart || msg is Restore,
        opens_round(msg) <==> msg is RoundStart || msg is Restore,
{
}

} // verus!
