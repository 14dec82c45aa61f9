//! Netplay: the game with no server.
//!
//! One player hosts. Their browser runs the [`Lobby`] rules and is the only peer
//! everyone else talks to, over a data channel each. The rendezvous server introduces
//! them and is then out of the picture, except that the host keeps asking it for new
//! offers so a dropped player can find their way back in mid-match.
//!
//! The host is a player too, so its own messages never touch the network: they go
//! straight into the local lobby, and the results come back through the same
//! `net::handle` that a joiner uses.
//!
//! A channel is a number that the caller gave it; the caller performs the [`Effect`]s.

use vstd::prelude::*;

use crate::laws::{is_error, law_empty_is_announced, law_refusals_change_nothing};
use crate::lobby::{cast_of, outs, Event, Lobby, Out, Ranges, Settings, Timer};
use crate::model::{EventView, LobbyView, OutView, RangesView, SettingsView, TimerView};
use crate::ordering::{
    first, kept, lemma_filter_keeps, lemma_filter_keeps_pairs, lemma_first, lemma_first_exists,
    lemma_first_none,
};
use crate::protocol::{ClientMsg, ClientMsgView, ServerMsg, ServerMsgView, Spot};
use crate::rendezvous::{Error, ErrorView};
use crate::rng::{Rng, RngView};
use crate::session::{gen_token, token_text};
use crate::text::{decimal, push_decimal};

verus! {

/// How often the host asks the rendezvous server for new joiners. Fast enough that
/// joining feels immediate, slow enough to be nothing next to ICE gathering.
pub const POLL_MS: u32 = 1200;

/// How long a joiner waits for the host's answer before giving up.
pub const ANSWER_ATTEMPTS: u32 = 25;

/// How often a joiner looks whether its channel is open, and how long it waits between.
pub const OPEN_CHECKS: u32 = 20;

pub const OPEN_WAIT_MS: u32 = 50;

/// Something the host's browser must do.
pub enum Effect {
    /// Send a message to each of these channels, then, if it is for us too, take it in.
    Tell { chans: Vec<u64>, us: bool, msg: ServerMsg },
    /// Close a channel.
    Close(u64),
    /// Call `Host::fire` with this timer after so many milliseconds.
    Wake { delay_ms: u64, timer: Timer },
    /// Build the world of the round that starts, and call `Host::lay_out` with it.
    LayOut { seed: u32, mutator: String },
    /// Give the room up.
    CloseRoom(String),
}

pub enum EffectView {
    Tell { chans: Seq<u64>, us: bool, msg: ServerMsgView },
    Close(u64),
    Wake { delay_ms: int, timer: TimerView },
    LayOut { seed: int, mutator: Seq<char> },
    CloseRoom(Seq<char>),
}

impl View for Effect {
    type V = EffectView;

    open spec fn view(&self) -> EffectView {
        match *self {
            Effect::Tell { chans, us, msg } => EffectView::Tell { chans: chans@, us, msg: msg@ },
            Effect::Close(chan) => EffectView::Close(chan),
            Effect::Wake { delay_ms, timer } => EffectView::Wake {
                delay_ms: delay_ms as int,
                timer: timer@,
            },
            Effect::LayOut { seed, mutator } => EffectView::LayOut {
                seed: seed as int,
                mutator: mutator@,
            },
            Effect::CloseRoom(code) => EffectView::CloseRoom(code@),
        }
    }
}

pub open spec fn effects(s: Seq<Effect>) -> Seq<EffectView> {
    s.map_values(|e: Effect| e@)
}

fn effect(todo: &mut Vec<Effect>, e: Effect)
    ensures
        effects(final(todo)@) == effects(old(todo)@).push(e@),
{
    let ghost before = todo@;
    todo.push(e);
    assert(effects(todo@) =~= effects(before).push(e@));
}

pub open spec fn is_player(id: int) -> spec_fn((u32, u64)) -> bool {
    |p: (u32, u64)| p.0 == id
}

pub open spec fn is_channel(chan: u64) -> spec_fn((u32, u64)) -> bool {
    |p: (u32, u64)| p.1 == chan
}

/// Neither this player nor this channel.
pub open spec fn is_unrelated(id: int, chan: u64) -> spec_fn((u32, u64)) -> bool {
    |p: (u32, u64)| p.0 != id && p.1 != chan
}

pub open spec fn is_not(chan: u64) -> spec_fn(u64) -> bool {
    |c: u64| c != chan
}

pub open spec fn channels(peers: Seq<(u32, u64)>) -> Seq<u64> {
    peers.map_values(|p: (u32, u64)| p.1)
}

pub struct HostView {
    pub code: Seq<char>,
    pub lobby: LobbyView,
    pub rng: RngView,
    pub next_id: u32,
    pub me: u32,
    pub peers: Seq<(u32, u64)>,
    pub unclaimed: Seq<u64>,
    pub current: Option<u64>,
    pub open: bool,
}

/// The host after something happened, and what its browser must do.
pub struct Hosting {
    pub host: HostView,
    pub effects: Seq<EffectView>,
}

/// How many may play: the rendezvous server caps joiners per room, and the host has a
/// seat of its own, but a lobby never holds more than its rules allow.
pub open spec fn seats(max_joiners: int) -> int {
    if max_joiners + 1 < 12 {
        max_joiners + 1
    } else {
        12
    }
}

pub open spec fn lobby_settings(max_joiners: int) -> SettingsView {
    SettingsView {
        intermission_ms: 8000,
        grace_ms: 60_000,
        mutator: None,
        max_players: seats(max_joiners),
    }
}

impl Hosting {
    pub open spec fn doing(self, e: EffectView) -> Hosting {
        Hosting { effects: self.effects.push(e), ..self }
    }

    /// Where a message to a joiner goes: to their channel, and if they have none, to the
    /// one whose message is being processed.
    pub open spec fn reached_by(self, id: int) -> Option<u64> {
        match first(self.host.peers, is_player(id)) {
            Some(i) => Some(self.host.peers[i].1),
            None => self.host.current,
        }
    }

    /// One more thing the lobby asked for is seen to.
    pub open spec fn dispatch(self, now: int, out: OutView) -> Hosting {
        match out {
            OutView::Bound(id) => match self.host.current {
                Some(chan) => Hosting {
                    host: HostView {
                        peers: self.host.peers.filter(is_unrelated(id, chan)).push(
                            (id as u32, chan),
                        ),
                        unclaimed: self.host.unclaimed.filter(is_not(chan)),
                        ..self.host
                    },
                    ..self
                },
                None => self,
            },
            OutView::Unbound(id) => match first(self.host.peers, is_player(id)) {
                Some(i) => Hosting {
                    host: HostView { peers: self.host.peers.remove(i), ..self.host },
                    ..self
                }.doing(EffectView::Close(self.host.peers[i].1)),
                None => self,
            },
            OutView::To(id, msg) => if id == self.host.me {
                self.doing(EffectView::Tell { chans: Seq::empty(), us: true, msg })
            } else {
                match self.reached_by(id) {
                    Some(chan) => self.doing(
                        EffectView::Tell { chans: seq![chan], us: false, msg },
                    ),
                    None => self,
                }
            },
            OutView::Reply(msg) => match self.host.current {
                Some(chan) => self.doing(EffectView::Tell { chans: seq![chan], us: false, msg }),
                None => self.doing(EffectView::Tell { chans: Seq::empty(), us: true, msg }),
            },
            OutView::All(msg) => {
                let all = EffectView::Tell { chans: channels(self.host.peers), us: true, msg };
                match msg {
                    ServerMsgView::RoundStart { seed, mutator, .. } => self.doing(
                        EffectView::LayOut { seed, mutator },
                    ).doing(all),
                    _ => self.doing(all),
                }
            },
            OutView::Schedule { at_ms, timer } => self.doing(
                EffectView::Wake { delay_ms: delay(at_ms, now), timer },
            ),
            OutView::Empty => Hosting {
                host: HostView { open: false, ..self.host },
                ..self
            }.doing(EffectView::CloseRoom(self.host.code)),
        }
    }
}

/// How long until a time, as far as a browser's timer can count.
pub open spec fn delay(at_ms: int, now: int) -> int {
    if at_ms <= now {
        0
    } else if at_ms - now > i32::MAX {
        i32::MAX as int
    } else {
        at_ms - now
    }
}

/// Everything the lobby asked for is seen to, in order.
pub open spec fn dispatched(host: HostView, now: int, outs: Seq<OutView>) -> Hosting
    decreases outs.len(),
{
    if outs.len() == 0 {
        Hosting { host, effects: Seq::empty() }
    } else {
        dispatched(host, now, outs.drop_last()).dispatch(now, outs.last())
    }
}

impl HostView {
    pub open spec fn opened(code: Seq<char>, max_joiners: int, rng: RngView) -> HostView {
        HostView {
            code,
            lobby: LobbyView::opened(code, lobby_settings(max_joiners)),
            rng,
            next_id: 2,
            me: 1,
            peers: Seq::empty(),
            unclaimed: Seq::empty(),
            current: None,
            open: true,
        }
    }

    pub open spec fn idle(self) -> Hosting {
        Hosting { host: self, effects: Seq::empty() }
    }

    /// A channel waits to be claimed.
    pub open spec fn letting_in(self, chan: u64) -> HostView {
        HostView { unclaimed: self.unclaimed.push(chan), ..self }
    }

    /// Asking for joiners failed: the host then, and what to say of it.
    pub open spec fn after_failure(self, e: ErrorView) -> (HostView, Option<Seq<char>>) {
        if e.missing() {
            (HostView { open: false, ..self }, Some("The lobby expired."@))
        } else {
            (self, None)
        }
    }

    /// Something happens in the lobby, and its consequences are seen to.
    pub open spec fn applied(self, now: int, event: EventView) -> Hosting {
        let step = self.lobby.apply(now, self.rng, event);
        dispatched(HostView { lobby: step.lobby, rng: step.rng, ..self }, now, step.outs)
    }

    /// The player behind a channel.
    pub open spec fn player_on(self, chan: u64) -> Option<int> {
        match first(self.peers, is_channel(chan)) {
            Some(i) => Some(self.peers[i].0 as int),
            None => None,
        }
    }

    /// The host joins its own lobby.
    pub open spec fn begun(self, now: int, name: Seq<char>, ranges: RangesView) -> Hosting {
        let ready = HostView { rng: self.rng.after(3), ..self };
        ready.applied(
            now,
            EventView::Client {
                from: None,
                msg: ClientMsgView::Create { name },
                id: self.me as int,
                token: token_text(self.rng),
                ranges,
            },
        )
    }

    /// What a joiner's message is to the lobby.
    pub open spec fn raised(self, chan: u64, msg: ClientMsgView, ranges: RangesView) -> EventView {
        EventView::Client {
            from: self.player_on(chan),
            msg,
            id: self.next_id as int,
            token: token_text(self.rng),
            ranges,
        }
    }

    /// What a message of our own is to the lobby.
    pub open spec fn raised_by_us(self, msg: ClientMsgView, ranges: RangesView) -> EventView {
        EventView::Client {
            from: Some(self.me as int),
            msg,
            id: self.me as int,
            token: token_text(self.rng),
            ranges,
        }
    }

    /// A joiner says something.
    pub open spec fn received(
        self,
        now: int,
        chan: u64,
        msg: ClientMsgView,
        ranges: RangesView,
    ) -> Hosting {
        let ready = HostView {
            next_id: if self.next_id == u32::MAX {
                0
            } else {
                (self.next_id + 1) as u32
            },
            current: Some(chan),
            rng: self.rng.after(3),
            ..self
        };
        let done = ready.applied(now, self.raised(chan, msg, ranges));
        Hosting { host: HostView { current: None, ..done.host }, ..done }
    }

    /// A channel closed: its player has dropped, or nobody had claimed it.
    pub open spec fn closed(self, now: int, chan: u64) -> Hosting {
        match self.player_on(chan) {
            Some(id) => self.applied(now, EventView::Dropped(id)),
            None => HostView {
                unclaimed: self.unclaimed.filter(is_not(chan)),
                ..self
            }.idle(),
        }
    }

    /// We say something ourselves: straight into the lobby, no network.
    pub open spec fn said(self, now: int, msg: ClientMsgView, ranges: RangesView) -> Hosting {
        let ready = HostView { current: None, rng: self.rng.after(3), ..self };
        ready.applied(now, self.raised_by_us(msg, ranges))
    }
}

fn keep_unrelated(peers: &mut Vec<(u32, u64)>, id: u32, chan: u64)
    ensures
        final(peers)@ == old(peers)@.filter(is_unrelated(id as int, chan)),
{
    let passes = |p: (u32, u64)| -> (b: bool)
        ensures
            b == is_unrelated(id as int, chan)(p),
        {
            p.0 != id && p.1 != chan
        };
    *peers = kept(peers, passes, Ghost(is_unrelated(id as int, chan)));
}

fn drop_channel(unclaimed: &mut Vec<u64>, chan: u64)
    ensures
        final(unclaimed)@ == old(unclaimed)@.filter(is_not(chan)),
{
    let passes = |c: u64| -> (b: bool)
        ensures
            b == is_not(chan)(c),
        {
            c != chan
        };
    *unclaimed = kept(unclaimed, passes, Ghost(is_not(chan)));
}

fn place_of(peers: &Vec<(u32, u64)>, id: u32) -> (r: Option<usize>)
    ensures
        match r {
            Some(i) => i < peers@.len() && first(peers@, is_player(id as int)) == Some(i as int),
            None => first(peers@, is_player(id as int)) is None,
        },
{
    let mut i: usize = 0;
    while i < peers.len()
        invariant
            i <= peers.len(),
            forall|j: int| 0 <= j < i ==> (#[trigger] peers@[j]).0 != id,
        decreases peers.len() - i,
    {
        if peers[i].0 == id {
            proof {
                lemma_first(peers@, is_player(id as int), i as int);
            }
            return Some(i);
        }
        i += 1;
    }
    proof {
        lemma_first_none(peers@, is_player(id as int));
    }
    None
}

fn all_channels(peers: &Vec<(u32, u64)>) -> (chans: Vec<u64>)
    ensures
        chans@ == channels(peers@),
{
    let mut chans: Vec<u64> = Vec::new();
    let mut i: usize = 0;
    while i < peers.len()
        invariant
            i <= peers.len(),
            chans.len() == i,
            forall|j: int| 0 <= j < i ==> #[trigger] chans@[j] == peers@[j].1,
        decreases peers.len() - i,
    {
        chans.push(peers[i].1);
        i += 1;
    }
    assert(chans@ =~= channels(peers@));
    chans
}

/// The lobby that runs in the host's browser, and who is reached by which channel.
pub struct Host {
    code: String,
    lobby: Lobby,
    rng: Rng,
    next_id: u32,
    /// The host's own player id.
    me: u32,
    /// Channels bound to a player.
    peers: Vec<(u32, u64)>,
    /// Channels answered but not yet claimed by a Join or Rejoin.
    unclaimed: Vec<u64>,
    /// The channel whose message is being processed, so a reply to a connection
    /// with no player yet still reaches it.
    current: Option<u64>,
    open: bool,
}

impl View for Host {
    type V = HostView;

    closed spec fn view(&self) -> HostView {
        HostView {
            code: self.code@,
            lobby: self.lobby@,
            rng: self.rng@,
            next_id: self.next_id,
            me: self.me,
            peers: self.peers@,
            unclaimed: self.unclaimed@,
            current: self.current,
            open: self.open,
        }
    }
}

/// The seed that the time gives a host's random stream.
pub open spec fn host_seed(now_ms: u64) -> u64 {
    now_ms ^ 0x9e3779b97f4a7c15
}

pub fn seeded_rng(now_ms: u64) -> (rng: Rng)
    ensures
        rng@ == RngView::seeded(host_seed(now_ms)),
{
    Rng::new(now_ms ^ 0x9e3779b97f4a7c15)
}

/// What to tell the host of a lobby that holds fewer than usual.
pub open spec fn seats_told(max_joiners: int) -> Option<Seq<char>> {
    if seats(max_joiners) < 12 {
        Some("This lobby holds "@ + decimal(seats(max_joiners) as nat) + " players."@)
    } else {
        None
    }
}

pub fn seats_notice(max_joiners: u32) -> (notice: Option<String>)
    ensures
        match notice {
            Some(text) => seats_told(max_joiners as int) == Some(text@),
            None => seats_told(max_joiners as int) is None,
        },
        match notice {
            Some(text) => seats(max_joiners as int) < 12 && text@ == "This lobby holds "@ + decimal(
                seats(max_joiners as int) as nat,
            ) + " players."@,
            None => seats(max_joiners as int) == 12,
        },
{
    if max_joiners < 11 {
        let mut text = "This lobby holds ".to_owned();
        push_decimal(&mut text, max_joiners as u64 + 1);
        text.append(" players.");
        Some(text)
    } else {
        None
    }
}

impl Host {
    /// Opens a lobby under a code that the rendezvous server gave out. Our own player
    /// will have id 1.
    pub fn new(code: String, max_joiners: u32, rng: Rng) -> (host: Self)
        ensures
            host@ == HostView::opened(code@, max_joiners as int, rng@),
            host@.lobby.valid(),
    {
        let usual = Settings::default();
        let settings = Settings {
            max_players: if max_joiners < 11 {
                max_joiners as usize + 1
            } else {
                12
            },
            ..usual
        };
        Host {
            code: code.clone(),
            lobby: Lobby::new(code, settings),
            rng,
            next_id: 2,
            me: 1,
            peers: Vec::new(),
            unclaimed: Vec::new(),
            current: None,
            open: true,
        }
    }

    pub fn code(&self) -> (code: &str)
        ensures
            code@ == self@.code,
    {
        self.code.as_str()
    }

    /// Whether joiners are still looked for.
    pub fn is_open(&self) -> (r: bool)
        ensures
            r == self@.open,
    {
        self.open
    }

    pub fn lobby(&self) -> (lobby: &Lobby)
        ensures
            lobby@ == self@.lobby,
    {
        &self.lobby
    }

    /// A channel was answered, and waits for a Join or Rejoin to claim it.
    pub fn let_in(&mut self, chan: u64)
        ensures
            final(self)@ == old(self)@.letting_in(chan),
            final(self)@ == (HostView {
                unclaimed: old(self)@.unclaimed.push(chan),
                ..old(self)@
            }),
    {
        self.unclaimed.push(chan);
    }

    /// Asking for joiners failed. If the room is gone there is no point in asking again,
    /// and the answer is what to say of it; anything else may pass.
    pub fn poll_failed(&mut self, e: &Error) -> (notice: Option<String>)
        ensures
            final(self)@ == old(self)@.after_failure(e@).0,
            match notice {
                Some(text) => old(self)@.after_failure(e@).1 == Some(text@),
                None => old(self)@.after_failure(e@).1 is None,
            },
            e@.missing() ==> final(self)@ == (HostView { open: false, ..old(self)@ })
                && notice is Some && notice->0@ == "The lobby expired."@,
            !e@.missing() ==> *final(self) == *old(self) && notice is None,
    {
        if e.is_missing() {
            self.open = false;
            Some("The lobby expired.".to_owned())
        } else {
            None
        }
    }

    /// Places Waldo and the cast in the world of the round that started.
    pub fn lay_out(&mut self, waldo: Spot, cast: Vec<(String, Spot)>)
        ensures
            final(self)@ == (HostView {
                lobby: old(self)@.lobby.laid_out(waldo, cast_of(cast@)),
                ..old(self)@
            }),
    {
        self.lobby.lay_out(waldo, cast);
    }

    /// Sees to one thing the lobby asked for.
    fn dispatch_one(
        &mut self,
        now_ms: u64,
        out: Out,
        todo: &mut Vec<Effect>,
        Ghost(before): Ghost<Hosting>,
    )
        requires
            old(self)@ == before.host,
            effects(old(todo)@) == before.effects,
        ensures
            ({
                let after = before.dispatch(now_ms as int, out@);
                &&& final(self)@ == after.host
                &&& effects(final(todo)@) == after.effects
            }),
    {
        match out {
            Out::Bound(id) => {
                if let Some(chan) = self.current {
                    keep_unrelated(&mut self.peers, id, chan);
                    drop_channel(&mut self.unclaimed, chan);
                    self.peers.push((id, chan));
                }
            },
            Out::Unbound(id) => {
                if let Some(i) = place_of(&self.peers, id) {
                    let (_, chan) = self.peers.remove(i);
                    effect(todo, Effect::Close(chan));
                }
            },
            Out::To(id, msg) => {
                if id == self.me {
                    let chans: Vec<u64> = Vec::new();
                    assert(chans@ =~= Seq::empty());
                    effect(todo, Effect::Tell { chans, us: true, msg });
                } else {
                    let target = match place_of(&self.peers, id) {
                        Some(i) => Some(self.peers[i].1),
                        None => self.current,
                    };
                    if let Some(chan) = target {
                        let chans = vec![chan];
                        assert(chans@ =~= seq![chan]);
                        effect(todo, Effect::Tell { chans, us: false, msg });
                    }
                }
            },
            Out::Reply(msg) => {
                if let Some(chan) = self.current {
                    let chans = vec![chan];
                    assert(chans@ =~= seq![chan]);
                    effect(todo, Effect::Tell { chans, us: false, msg });
                } else {
                    // nobody's message is being processed but our own
                    let chans: Vec<u64> = Vec::new();
                    assert(chans@ =~= Seq::empty());
                    effect(todo, Effect::Tell { chans, us: true, msg });
                }
            },
            Out::All(msg) => {
                if let ServerMsg::RoundStart { seed, mutator, .. } = &msg {
                    effect(todo, Effect::LayOut { seed: *seed, mutator: mutator.clone() });
                }
                effect(todo, Effect::Tell { chans: all_channels(&self.peers), us: true, msg });
            },
            Out::Schedule { at_ms, timer } => {
                let wait = at_ms.saturating_sub(now_ms);
                let delay_ms = if wait > i32::MAX as u64 {
                    i32::MAX as u64
                } else {
                    wait
                };
                effect(todo, Effect::Wake { delay_ms, timer });
            },
            Out::Empty => {
                self.open = false;
                effect(todo, Effect::CloseRoom(self.code.clone()));
            },
        }
    }

    /// Deliver what the lobby asked for: to ourselves, to a joiner over their channel,
    /// and schedule anything it wants to be reminded of.
    fn dispatch(&mut self, now_ms: u64, all: Vec<Out>) -> (todo: Vec<Effect>)
        ensures
            ({
                let after = dispatched(old(self)@, now_ms as int, outs(all@));
                &&& final(self)@ == after.host
                &&& effects(todo@) == after.effects
            }),
    {
        let ghost was = self@;
        let ghost every = outs(all@);
        let mut todo: Vec<Effect> = Vec::new();
        let mut left = all;
        let ghost mut seen: int = 0;
        proof {
            assert(effects(todo@) =~= Seq::empty());
            assert(every.take(0).len() == 0);
            assert(every.skip(0) =~= every);
        }
        while left.len() > 0
            invariant
                0 <= seen <= every.len(),
                outs(left@) == every.skip(seen),
                self@ == dispatched(was, now_ms as int, every.take(seen)).host,
                effects(todo@) == dispatched(was, now_ms as int, every.take(seen)).effects,
            decreases left.len(),
        {
            let ghost so_far = dispatched(was, now_ms as int, every.take(seen));
            let ghost before = left@;
            let out = left.remove(0);
            proof {
                assert(every.skip(seen).len() == before.len());
                assert(out@ == outs(before)[0]);
                assert(out@ == every[seen]);
                assert(every.take(seen + 1).drop_last() =~= every.take(seen));
                assert forall|j: int| 0 <= j < left@.len() implies outs(left@)[j] == every.skip(
                    seen + 1,
                )[j] by {
                    assert(left@[j] == before[j + 1]);
                    assert(outs(before)[j + 1] == every.skip(seen)[j + 1]);
                }
                assert(outs(left@) =~= every.skip(seen + 1));
            }
            self.dispatch_one(now_ms, out, &mut todo, Ghost(so_far));
            proof {
                seen = seen + 1;
            }
        }
        assert(every.skip(seen).len() == 0);
        assert(every.take(seen) =~= every);
        todo
    }

    fn apply(&mut self, now_ms: u64, event: Event) -> (todo: Vec<Effect>)
        requires
            old(self)@.lobby.valid(),
            old(self)@.lobby.headroom(now_ms as int),
        ensures
            ({
                let after = old(self)@.applied(now_ms as int, event@);
                &&& final(self)@ == after.host
                &&& effects(todo@) == after.effects
            }),
            final(self)@.lobby.valid(),
    {
        let all = self.lobby.apply(now_ms, &mut self.rng, event);
        proof {
            lemma_dispatch_keeps_lobby(self@, now_ms as int, outs(all@));
        }
        self.dispatch(now_ms, all)
    }

    /// The host joins its own lobby.
    pub fn begin(&mut self, now_ms: u64, name: String) -> (todo: Vec<Effect>)
        requires
            old(self)@.lobby.valid(),
            old(self)@.lobby.headroom(now_ms as int),
        ensures
            ({
                let after = old(self)@.begun(
                    now_ms as int,
                    name@,
                    RangesView { waldo: 0, cast: Seq::empty() },
                );
                &&& final(self)@ == after.host
                &&& effects(todo@) == after.effects
            }),
            final(self)@.lobby.valid(),
    {
        let token = gen_token(&mut self.rng);
        let ranges = Ranges { waldo: 0, cast: Vec::new() };
        assert(ranges@.cast =~= Seq::empty());
        self.apply(
            now_ms,
            Event::Client {
                from: None,
                msg: ClientMsg::Create { name },
                id: self.me,
                token,
                ranges,
            },
        )
    }

    fn player_on(&self, chan: u64) -> (id: Option<u32>)
        ensures
            match id {
                Some(id) => self@.player_on(chan) == Some(id as int),
                None => self@.player_on(chan) is None,
            },
    {
        let mut i: usize = 0;
        while i < self.peers.len()
            invariant
                i <= self.peers.len(),
                forall|j: int| 0 <= j < i ==> (#[trigger] self.peers@[j]).1 != chan,
            decreases self.peers.len() - i,
        {
            if self.peers[i].1 == chan {
                proof {
                    lemma_first(self.peers@, is_channel(chan), i as int);
                }
                return Some(self.peers[i].0);
            }
            i += 1;
        }
        proof {
            lemma_first_none(self.peers@, is_channel(chan));
        }
        None
    }

    /// Routes what a joiner sends into the local lobby.
    pub fn receive(
        &mut self,
        now_ms: u64,
        chan: u64,
        msg: ClientMsg,
        ranges: Ranges,
    ) -> (todo: Vec<Effect>)
        requires
            old(self)@.lobby.valid(),
            old(self)@.lobby.headroom(now_ms as int),
        ensures
            ({
                let after = old(self)@.received(now_ms as int, chan, msg@, ranges@);
                &&& final(self)@ == after.host
                &&& effects(todo@) == after.effects
            }),
            final(self)@.lobby.valid(),
    {
        let from = self.player_on(chan);
        let id = self.next_id;
        self.next_id = if id == u32::MAX {
            0
        } else {
            id + 1
        };
        self.current = Some(chan);
        let token = gen_token(&mut self.rng);
        let todo = self.apply(now_ms, Event::Client { from, msg, id, token, ranges });
        self.current = None;
        todo
    }

    /// A channel closed.
    pub fn closed(&mut self, now_ms: u64, chan: u64) -> (todo: Vec<Effect>)
        requires
            old(self)@.lobby.valid(),
            old(self)@.lobby.headroom(now_ms as int),
        ensures
            ({
                let after = old(self)@.closed(now_ms as int, chan);
                &&& final(self)@ == after.host
                &&& effects(todo@) == after.effects
            }),
            final(self)@.lobby.valid(),
    {
        match self.player_on(chan) {
            Some(id) => self.apply(now_ms, Event::Dropped(id)),
            None => {
                drop_channel(&mut self.unclaimed, chan);
                let todo: Vec<Effect> = Vec::new();
                assert(effects(todo@) =~= Seq::empty());
                todo
            },
        }
    }

    /// A timer has come due.
    pub fn fire(&mut self, now_ms: u64, timer: Timer) -> (todo: Vec<Effect>)
        requires
            old(self)@.lobby.valid(),
            old(self)@.lobby.headroom(now_ms as int),
        ensures
            ({
                let after = old(self)@.applied(now_ms as int, EventView::Fired(timer@));
                &&& final(self)@ == after.host
                &&& effects(todo@) == after.effects
            }),
            final(self)@.lobby.valid(),
    {
        self.apply(now_ms, Event::Fired(timer))
    }

    /// Our own message: straight into the lobby, no network.
    pub fn say(&mut self, now_ms: u64, msg: ClientMsg, ranges: Ranges) -> (todo: Vec<Effect>)
        requires
            old(self)@.lobby.valid(),
            old(self)@.lobby.headroom(now_ms as int),
        ensures
            ({
                let after = old(self)@.said(now_ms as int, msg@, ranges@);
                &&& final(self)@ == after.host
                &&& effects(todo@) == after.effects
            }),
            final(self)@.lobby.valid(),
    {
        let token = gen_token(&mut self.rng);
        self.current = None;
        let me = self.me;
        self.apply(now_ms, Event::Client { from: Some(me), msg, id: me, token, ranges })
    }
}

pub(crate) proof fn lemma_dispatch_keeps_lobby(host: HostView, now: int, all: Seq<OutView>)
    ensures
        dispatched(host, now, all).host.lobby == host.lobby,
    decreases all.len(),
{
    if all.len() > 0 {
        lemma_dispatch_keeps_lobby(host, now, all.drop_last());
    }
}

/// No player and no channel is bound twice.
pub open spec fn bound_once(peers: Seq<(u32, u64)>) -> bool {
    forall|i: int, j: int|
        0 <= i < j < peers.len() ==> (#[trigger] peers[i]).0 != (#[trigger] peers[j]).0
            && peers[i].1 != peers[j].1
}

spec fn unrelated() -> spec_fn((u32, u64), (u32, u64)) -> bool {
    |a: (u32, u64), b: (u32, u64)| a.0 != b.0 && a.1 != b.1
}

/// Each channel serves one player and each player has one channel, whatever the lobby
/// asks for.
pub proof fn law_channels_are_bound_once(host: HostView, now: int, all: Seq<OutView>)
    requires
        bound_once(host.peers),
        forall|k: int|
            0 <= k < all.len() ==> ((#[trigger] all[k]) matches OutView::Bound(id) ==> 0 <= id
                <= u32::MAX),
    ensures
        bound_once(dispatched(host, now, all).host.peers),
    decreases all.len(),
{
    if all.len() > 0 {
        let fewer = all.drop_last();
        assert forall|k: int| 0 <= k < fewer.len() implies ((
        #[trigger] fewer[k]) matches OutView::Bound(id) ==> 0 <= id <= u32::MAX) by {
            assert(fewer[k] == all[k]);
        }
        law_channels_are_bound_once(host, now, fewer);
        let so_far = dispatched(host, now, fewer);
        assert(all[all.len() - 1] == all.last());
        match (all.last(), so_far.host.current) {
            (OutView::Bound(id), Some(chan)) => {
                let pred = is_unrelated(id, chan);
                let kept = so_far.host.peers.filter(pred);
                lemma_filter_keeps(so_far.host.peers, pred);
                lemma_filter_keeps_pairs(so_far.host.peers, pred, unrelated());
                assert forall|j: int| 0 <= j < kept.len() implies (#[trigger] kept[j]).0 != id
                    && kept[j].1 != chan by {
                    assert(pred(kept[j]));
                }
            },
            (OutView::Unbound(id), _) => {
                if let Some(i) = first(so_far.host.peers, is_player(id)) {
                    let left = so_far.host.peers.remove(i);
                    assert forall|a: int, b: int| 0 <= a < b < left.len() implies (
                    #[trigger] left[a]).0 != (#[trigger] left[b]).0 && left[a].1 != left[b].1 by {
                        let x = if a < i {
                            a
                        } else {
                            a + 1
                        };
                        let y = if b < i {
                            b
                        } else {
                            b + 1
                        };
                        assert(left[a] == so_far.host.peers[x] && left[b] == so_far.host.peers[y]);
                    }
                }
            },
            _ => {},
        }
    }
}

/// What is for the host alone never touches the network, and what is for everyone
/// reaches the host and every bound channel.
pub proof fn law_the_host_is_a_player_too(
    so_far: Hosting,
    now: int,
    msg: ServerMsgView,
    i: int,
)
    requires
        0 <= i < so_far.host.peers.len(),
    ensures
        so_far.dispatch(now, OutView::To(so_far.host.me as int, msg)) == so_far.doing(
            EffectView::Tell { chans: Seq::empty(), us: true, msg },
        ),
        so_far.dispatch(now, OutView::All(msg)).effects.last() matches EffectView::Tell {
            chans,
            us,
            msg: sent,
        } && us && sent == msg && chans.len() == so_far.host.peers.len() && chans[i]
            == so_far.host.peers[i].1,
{
}

/// Whether nothing changed but that one refusal was told, over these channels or to us.
pub open spec fn only_refused(host: HostView, after: Hosting, chans: Seq<u64>, us: bool) -> bool {
    &&& after.host.lobby == host.lobby
    &&& after.host.peers == host.peers
    &&& after.host.unclaimed == host.unclaimed
    &&& after.effects.len() == 1
    &&& after.effects[0] matches EffectView::Tell {
        chans: told,
        us: ourselves,
        msg: ServerMsgView::Error { .. },
    } && told == chans && ourselves == us
}

/// A joiner whose request the lobby refuses hears of it over the channel they asked on,
/// whether they have a seat or not, and nobody else does; the lobby and everybody's
/// channels stay as they were.
pub proof fn law_refused_joiners_are_told(
    host: HostView,
    now: int,
    chan: u64,
    msg: ClientMsgView,
    ranges: RangesView,
)
    requires
        host.lobby.players.len() > 0,
        !(msg is Create || msg is Join || msg is Rejoin) ==> bound_once(host.peers)
            && host.player_on(chan) != Some(host.me as int),
        msg is Create || msg is Join ==> host.next_id != host.me && first(
            host.peers,
            is_player(host.next_id as int),
        ) is None,
    ensures
        ({
            let event = host.raised(chan, msg, ranges);
            let outs = host.lobby.handled(now, host.rng.after(3), event).outs;
            outs.len() > 0 && is_error(outs[0]) ==> only_refused(
                host,
                host.received(now, chan, msg, ranges),
                seq![chan],
                false,
            )
        }),
{
    let rng = host.rng.after(3);
    let event = host.raised(chan, msg, ranges);
    if let Some(i) = first(host.peers, is_channel(chan)) {
        lemma_first_exists(host.peers, is_player(host.peers[i].0 as int), i);
    }
    law_refusals_change_nothing(host.lobby, now, rng, event);
    let outs = host.lobby.handled(now, rng, event).outs;
    if outs.len() > 0 && is_error(outs[0]) {
        reveal_with_fuel(dispatched, 2);
        assert(outs.drop_last() =~= Seq::empty());
    }
}

/// A request of our own that the lobby refuses is answered to ourselves alone, and the
/// lobby and everybody's channels stay as they were.
pub proof fn law_our_own_refusals_are_told_to_us(
    host: HostView,
    now: int,
    msg: ClientMsgView,
    ranges: RangesView,
)
    requires
        host.lobby.players.len() > 0,
    ensures
        ({
            let event = host.raised_by_us(msg, ranges);
            let outs = host.lobby.handled(now, host.rng.after(3), event).outs;
            outs.len() > 0 && is_error(outs[0]) ==> only_refused(
                host,
                host.said(now, msg, ranges),
                Seq::empty(),
                true,
            )
        }),
{
    let rng = host.rng.after(3);
    let event = host.raised_by_us(msg, ranges);
    law_refusals_change_nothing(host.lobby, now, rng, event);
    let outs = host.lobby.handled(now, rng, event).outs;
    if outs.len() > 0 && is_error(outs[0]) {
        reveal_with_fuel(dispatched, 2);
        assert(outs.drop_last() =~= Seq::empty());
    }
}

/// The host gives its room up exactly when the lobby has emptied, and then stops looking
/// for joiners.
pub proof fn law_empty_lobbies_give_their_room_up(host: HostView, now: int, event: EventView)
    ensures
        ({
            let after = host.applied(now, event);
            let emptied = host.lobby.apply(now, host.rng, event).lobby.players.len() == 0;
            &&& emptied == after.effects.contains(EffectView::CloseRoom(host.code))
            &&& after.host.open == (host.open && !emptied)
        }),
{
    let step = host.lobby.apply(now, host.rng, event);
    let ready = HostView { lobby: step.lobby, rng: step.rng, ..host };
    lemma_closing(ready, now, step.outs);
    law_empty_is_announced(host.lobby, now, host.rng, event);
}

proof fn lemma_closing(host: HostView, now: int, all: Seq<OutView>)
    ensures
        ({
            let after = dispatched(host, now, all);
            &&& after.host.code == host.code
            &&& all.contains(OutView::Empty) == after.effects.contains(
                EffectView::CloseRoom(host.code),
            )
            &&& after.host.open == (host.open && !all.contains(OutView::Empty))
        }),
    decreases all.len(),
{
    let closing = EffectView::CloseRoom(host.code);
    if all.len() > 0 {
        let fewer = all.drop_last();
        lemma_closing(host, now, fewer);
        let before = dispatched(host, now, fewer);
        let after = dispatched(host, now, all);
        assert(all =~= fewer.push(all.last()));
        if fewer.contains(OutView::Empty) {
            let k = choose|k: int| 0 <= k < fewer.len() && fewer[k] == OutView::Empty;
            assert(all[k] == OutView::Empty);
            let m = choose|m: int| 0 <= m < before.effects.len() && before.effects[m] == closing;
            assert(after.effects[m] == closing);
        } else if all.last() == OutView::Empty {
            assert(all[all.len() - 1] == OutView::Empty);
            assert(after.effects[after.effects.len() - 1] == closing);
        } else {
            if all.contains(OutView::Empty) {
                let k = choose|k: int| 0 <= k < all.len() && all[k] == OutView::Empty;
                assert(fewer[k] == OutView::Empty);
            }
            if after.effects.contains(closing) {
                let m = choose|m: int|
                    0 <= m < after.effects.len() && after.effects[m] == closing;
                assert(m < before.effects.len() && before.effects[m] == closing);
            }
        }
    } else {
        assert(!all.contains(OutView::Empty));
        assert(!dispatched(host, now, all).effects.contains(closing));
    }
}

/// Where a joiner is on its way to the host.
pub enum Stage {
    /// Asking for the servers to gather candidates from.
    Servers,
    /// Building an offer.
    Offering,
    /// Leaving the offer with the rendezvous server.
    Joining,
    /// Asking for the host's answer, so many times more.
    Asking { seat: u32, left: u32 },
    /// Waiting before it asks again.
    Pausing { seat: u32, left: u32 },
    /// Applying the answer.
    Accepting,
    /// Looking whether the channel is open, so many times more.
    Opening { left: u32 },
    /// Waiting before it looks again.
    Settling { left: u32 },
    Done,
}

/// What came of the last thing the joiner had to do.
pub enum Got {
    Ready,
    Failed(String),
    Refused(Error),
    Seat(u32),
    Answer(bool),
    Slept,
    Open(bool),
}

pub enum GotView {
    Ready,
    Failed(Seq<char>),
    Refused(ErrorView),
    Seat(u32),
    Answer(bool),
    Slept,
    Open(bool),
}

impl View for Got {
    type V = GotView;

    open spec fn view(&self) -> GotView {
        match *self {
            Got::Ready => GotView::Ready,
            Got::Failed(e) => GotView::Failed(e@),
            Got::Refused(e) => GotView::Refused(e@),
            Got::Seat(seat) => GotView::Seat(seat),
            Got::Answer(there) => GotView::Answer(there),
            Got::Slept => GotView::Slept,
            Got::Open(open) => GotView::Open(open),
        }
    }
}

/// What the joiner has to do next.
pub enum Next {
    MakeOffer,
    Join,
    TakeAnswer { seat: u32 },
    Sleep { ms: u32 },
    Accept,
    CheckOpen,
    SendFirst,
    /// Give up, saying so.
    Toast(String),
    Nothing,
}

pub enum NextView {
    MakeOffer,
    Join,
    TakeAnswer { seat: u32 },
    Sleep { ms: u32 },
    Accept,
    CheckOpen,
    SendFirst,
    Toast(Seq<char>),
    Nothing,
}

impl View for Next {
    type V = NextView;

    open spec fn view(&self) -> NextView {
        match *self {
            Next::MakeOffer => NextView::MakeOffer,
            Next::Join => NextView::Join,
            Next::TakeAnswer { seat } => NextView::TakeAnswer { seat },
            Next::Sleep { ms } => NextView::Sleep { ms },
            Next::Accept => NextView::Accept,
            Next::CheckOpen => NextView::CheckOpen,
            Next::SendFirst => NextView::SendFirst,
            Next::Toast(text) => NextView::Toast(text@),
            Next::Nothing => NextView::Nothing,
        }
    }
}

/// What went wrong, and why.
pub open spec fn because(what: Seq<char>, why: Seq<char>) -> Seq<char> {
    what + ": "@ + why
}

pub fn failure(what: &str, why: &str) -> (text: String)
    ensures
        text@ == because(what@, why@),
{
    let mut text = what.to_owned();
    text.append(": ");
    text.append(why);
    text
}

/// The joiner's way to the host: what each outcome leads to. An outcome that the stage
/// did not ask for leads nowhere.
pub open spec fn advanced(stage: Stage, got: GotView) -> (Stage, NextView) {
    match (stage, got) {
        (Stage::Servers, GotView::Ready) => (Stage::Offering, NextView::MakeOffer),
        (Stage::Servers, GotView::Refused(e)) => (
            Stage::Done,
            NextView::Toast(because("Could not reach the lobby service"@, e.text())),
        ),
        (Stage::Offering, GotView::Ready) => (Stage::Joining, NextView::Join),
        (Stage::Offering, GotView::Failed(e)) => (
            Stage::Done,
            NextView::Toast(because("Could not start connecting"@, e)),
        ),
        (Stage::Joining, GotView::Seat(seat)) => (
            Stage::Asking { seat, left: ANSWER_ATTEMPTS },
            NextView::TakeAnswer { seat },
        ),
        (Stage::Joining, GotView::Refused(e)) => (
            Stage::Done,
            NextView::Toast(
                if e.missing() {
                    "No lobby with that code."@
                } else {
                    because("Could not join"@, e.text())
                },
            ),
        ),
        (Stage::Asking { .. }, GotView::Answer(true)) => (Stage::Accepting, NextView::Accept),
        (Stage::Asking { seat, left }, GotView::Answer(false)) => (
            Stage::Pausing { seat, left: one_less(left) },
            NextView::Sleep { ms: POLL_MS },
        ),
        (Stage::Asking { seat, left }, GotView::Refused(e)) => if e.missing() {
            (Stage::Done, NextView::Toast("The lobby closed."@))
        } else {
            (Stage::Pausing { seat, left: one_less(left) }, NextView::Sleep { ms: POLL_MS })
        },
        (Stage::Pausing { seat, left }, GotView::Slept) => if left > 0 {
            (Stage::Asking { seat, left }, NextView::TakeAnswer { seat })
        } else {
            (Stage::Done, NextView::Toast("The host did not answer."@))
        },
        (Stage::Accepting, GotView::Ready) => (
            Stage::Opening { left: OPEN_CHECKS },
            NextView::CheckOpen,
        ),
        (Stage::Accepting, GotView::Failed(e)) => (
            Stage::Done,
            NextView::Toast(because("Could not connect to the host"@, e)),
        ),
        (Stage::Opening { .. }, GotView::Open(true)) => (Stage::Done, NextView::SendFirst),
        (Stage::Opening { left }, GotView::Open(false)) => (
            Stage::Settling { left: one_less(left) },
            NextView::Sleep { ms: OPEN_WAIT_MS },
        ),
        (Stage::Settling { left }, GotView::Slept) => if left > 0 {
            (Stage::Opening { left }, NextView::CheckOpen)
        } else {
            (Stage::Done, NextView::SendFirst)
        },
        _ => (stage, NextView::Nothing),
    }
}

pub open spec fn one_less(n: u32) -> u32 {
    if n > 0 {
        (n - 1) as u32
    } else {
        0
    }
}

/// A joiner connecting to a host by code.
pub struct Joiner {
    pub stage: Stage,
}

impl Joiner {
    /// The first thing to do is to ask for the servers to gather candidates from.
    pub fn new() -> (joiner: Self)
        ensures
            joiner.stage == Stage::Servers,
    {
        Joiner { stage: Stage::Servers }
    }

    /// Takes in what came of the last thing to do, and gives the next.
    pub fn advance(&mut self, got: Got) -> (next: Next)
        ensures
            advanced(old(self).stage, got@) == (final(self).stage, next@),
    {
        let (stage, next) = match (&self.stage, got) {
            (Stage::Servers, Got::Ready) => (Stage::Offering, Next::MakeOffer),
            (Stage::Servers, Got::Refused(e)) => (
                Stage::Done,
                Next::Toast(failure("Could not reach the lobby service", e.text().as_str())),
            ),
            (Stage::Offering, Got::Ready) => (Stage::Joining, Next::Join),
            (Stage::Offering, Got::Failed(e)) => (
                Stage::Done,
                Next::Toast(failure("Could not start connecting", e.as_str())),
            ),
            (Stage::Joining, Got::Seat(seat)) => (
                Stage::Asking { seat, left: ANSWER_ATTEMPTS },
                Next::TakeAnswer { seat },
            ),
            (Stage::Joining, Got::Refused(e)) => (
                Stage::Done,
                Next::Toast(
                    if e.is_missing() {
                        "No lobby with that code.".to_owned()
                    } else {
                        failure("Could not join", e.text().as_str())
                    },
                ),
            ),
            (Stage::Asking { .. }, Got::Answer(true)) => (Stage::Accepting, Next::Accept),
            (Stage::Asking { seat, left }, Got::Answer(false)) => (
                Stage::Pausing { seat: *seat, left: left.saturating_sub(1) },
                Next::Sleep { ms: POLL_MS },
            ),
            (Stage::Asking { seat, left }, Got::Refused(e)) => {
                if e.is_missing() {
                    (Stage::Done, Next::Toast("The lobby closed.".to_owned()))
                } else {
                    (
                        Stage::Pausing { seat: *seat, left: left.saturating_sub(1) },
                        Next::Sleep { ms: POLL_MS },
                    )
                }
            },
            (Stage::Pausing { seat, left }, Got::Slept) => {
                if *left > 0 {
                    (
                        Stage::Asking { seat: *seat, left: *left },
                        Next::TakeAnswer { seat: *seat },
                    )
                } else {
                    (Stage::Done, Next::Toast("The host did not answer.".to_owned()))
                }
            },
            (Stage::Accepting, Got::Ready) => (
                Stage::Opening { left: OPEN_CHECKS },
                Next::CheckOpen,
            ),
            (Stage::Accepting, Got::Failed(e)) => (
                Stage::Done,
                Next::Toast(failure("Could not connect to the host", e.as_str())),
            ),
            (Stage::Opening { .. }, Got::Open(true)) => (Stage::Done, Next::SendFirst),
            // the channel is open by the time the answer is applied, but a few frames of
            // slack costs nothing and saves a race on slower machines
            (Stage::Opening { left }, Got::Open(false)) => (
                Stage::Settling { left: left.saturating_sub(1) },
                Next::Sleep { ms: OPEN_WAIT_MS },
            ),
            (Stage::Settling { left }, Got::Slept) => {
                if *left > 0 {
                    (Stage::Opening { left: *left }, Next::CheckOpen)
                } else {
                    (Stage::Done, Next::SendFirst)
                }
            },
            _ => {
                return Next::Nothing;
            },
        };
        self.stage = stage;
        next
    }
}

/// How many steps a joiner may still take at most.
pub open spec fn steps_left(stage: Stage) -> int {
    match stage {
        Stage::Servers => 2 * ANSWER_ATTEMPTS + 2 * OPEN_CHECKS + 6,
        Stage::Offering => 2 * ANSWER_ATTEMPTS + 2 * OPEN_CHECKS + 5,
        Stage::Joining => 2 * ANSWER_ATTEMPTS + 2 * OPEN_CHECKS + 4,
        Stage::Asking { left, .. } => 2 * left + 2 * OPEN_CHECKS + 3,
        Stage::Pausing { left, .. } => 2 * left + 2 * OPEN_CHECKS + 4,
        Stage::Accepting => 2 * OPEN_CHECKS + 2,
        Stage::Opening { left } => 2 * left + 1,
        Stage::Settling { left } => 2 * left + 2,
        Stage::Done => 0,
    }
}

/// Whether the stage is one that can come up: it has something left to try.
pub open spec fn is_underway(stage: Stage) -> bool {
    match stage {
        Stage::Asking { left, .. } => 0 < left <= ANSWER_ATTEMPTS,
        Stage::Pausing { left, .. } => left < ANSWER_ATTEMPTS,
        Stage::Opening { left } => 0 < left <= OPEN_CHECKS,
        Stage::Settling { left } => left < OPEN_CHECKS,
        _ => true,
    }
}

/// Connecting comes to an end: every step that leads anywhere leaves fewer to take, so a
/// joiner asks for an answer a bounded number of times, and it ends by speaking to the
/// host or by saying why it cannot.
pub proof fn law_connecting_ends(stage: Stage, got: GotView)
    requires
        is_underway(stage),
    ensures
        ({
            let (after, next) = advanced(stage, got);
            &&& is_underway(after)
            &&& next is Nothing ==> after == stage
            &&& !(next is Nothing) ==> 0 <= steps_left(after) < steps_left(stage)
            &&& !(next is Nothing) ==> (after is Done <==> next is Toast || next is SendFirst)
        }),
{
}

/// Where a joiner is after it got no answer `n` times, and what it has to do then.
pub open spec fn unanswered(seat: u32, n: nat) -> (Stage, NextView)
    decreases n,
{
    if n == 0 {
        advanced(Stage::Joining, GotView::Seat(seat))
    } else {
        let (asking, _) = unanswered(seat, (n - 1) as nat);
        let (pausing, _) = advanced(asking, GotView::Answer(false));
        advanced(pausing, GotView::Slept)
    }
}

/// A joiner asks for the answer to its own seat 25 times, and then says that the host did
/// not answer.
pub proof fn law_hosts_have_25_chances_to_answer(seat: u32, n: nat)
    requires
        n <= 25,
    ensures
        n < 25 ==> unanswered(seat, n) == (
            Stage::Asking { seat, left: (25 - n) as u32 },
            NextView::TakeAnswer { seat },
        ),
        n == 25 ==> unanswered(seat, n) == (
            Stage::Done,
            NextView::Toast("The host did not answer."@),
        ),
    decreases n,
{
    if n > 0 {
        law_hosts_have_25_chances_to_answer(seat, (n - 1) as nat);
    }
}

/// Where a joiner is after it found its channel closed `n` times, and what it has to do
/// then.
pub open spec fn unopened(n: nat) -> (Stage, NextView)
    decreases n,
{
    if n == 0 {
        advanced(Stage::Accepting, GotView::Ready)
    } else {
        let (opening, _) = unopened((n - 1) as nat);
        let (settling, _) = advanced(opening, GotView::Open(false));
        advanced(settling, GotView::Slept)
    }
}

/// A joiner looks 20 times whether its channel is open, and then speaks all the same.
pub proof fn law_channels_have_20_chances_to_open(n: nat)
    requires
        n <= 20,
    ensures
        n < 20 ==> unopened(n) == (
            Stage::Opening { left: (20 - n) as u32 },
            NextView::CheckOpen,
        ),
        n == 20 ==> unopened(n) == (Stage::Done, NextView::SendFirst),
    decreases n,
{
    if n > 0 {
        law_channels_have_20_chances_to_open((n - 1) as nat);
    }
}

/// A joiner that gets what it asks for goes straight on to the host, however often it had to
/// ask: servers, offer, seat, answer, channel. It waits 1.2 seconds for an answer that is not
/// there yet and 50 milliseconds for a channel that is not open yet.
pub proof fn law_connecting_goes_on(seat: u32, left: u32)
    ensures
        advanced(Stage::Servers, GotView::Ready) == (Stage::Offering, NextView::MakeOffer),
        advanced(Stage::Offering, GotView::Ready) == (Stage::Joining, NextView::Join),
        advanced(Stage::Joining, GotView::Seat(seat)).1 == (NextView::TakeAnswer { seat }),
        advanced(Stage::Asking { seat, left }, GotView::Answer(true)) == (
            Stage::Accepting,
            NextView::Accept,
        ),
        advanced(Stage::Asking { seat, left }, GotView::Answer(false)).1 == (
        NextView::Sleep { ms: 1200 }),
        advanced(Stage::Accepting, GotView::Ready).1 is CheckOpen,
        advanced(Stage::Opening { left }, GotView::Open(true)) == (
            Stage::Done,
            NextView::SendFirst,
        ),
        advanced(Stage::Opening { left }, GotView::Open(false)).1 == (NextView::Sleep { ms: 50 }),
{
}

/// A failure on the way ends it, and the joiner says what failed and why. Only asking for the
/// answer is tried again, as if there were none yet, unless the lobby is gone.
pub proof fn law_failures_are_explained(why: Seq<char>, e: ErrorView, seat: u32, left: u32)
    ensures
        advanced(Stage::Servers, GotView::Refused(e)) == (
            Stage::Done,
            NextView::Toast("Could not reach the lobby service"@ + ": "@ + e.text()),
        ),
        advanced(Stage::Offering, GotView::Failed(why)) == (
            Stage::Done,
            NextView::Toast("Could not start connecting"@ + ": "@ + why),
        ),
        e.missing() ==> advanced(Stage::Joining, GotView::Refused(e)) == (
            Stage::Done,
            NextView::Toast("No lobby with that code."@),
        ),
        !e.missing() ==> advanced(Stage::Joining, GotView::Refused(e)) == (
            Stage::Done,
            NextView::Toast("Could not join"@ + ": "@ + e.text()),
        ),
        e.missing() ==> advanced(Stage::Asking { seat, left }, GotView::Refused(e)) == (
            Stage::Done,
            NextView::Toast("The lobby closed."@),
        ),
        !e.missing() ==> advanced(Stage::Asking { seat, left }, GotView::Refused(e)) == advanced(
            Stage::Asking { seat, left },
            GotView::Answer(false),
        ),
        advanced(Stage::Accepting, GotView::Failed(why)) == (
            Stage::Done,
            NextView::Toast("Could not connect to the host"@ + ": "@ + why),
        ),
{
}

/// What a joiner did not ask for leads nowhere, and once it is through nothing does.
pub proof fn law_unasked_outcomes_lead_nowhere(stage: Stage, got: GotView)
    requires
        match stage {
            Stage::Servers => !(got is Ready || got is Refused),
            Stage::Offering => !(got is Ready || got is Failed),
            Stage::Joining => !(got is Seat || got is Refused),
            Stage::Asking { .. } => !(got is Answer || got is Refused),
            Stage::Pausing { .. } => !(got is Slept),
            Stage::Accepting => !(got is Ready || got is Failed),
            Stage::Opening { .. } => !(got is Open),
            Stage::Settling { .. } => !(got is Slept),
            Stage::Done => true,
        },
    ensures
        advanced(stage, got) == (stage, NextView::Nothing),
{
}

} // verus!
