//! The lobby server without its sockets: which lobby a message concerns, which
//! connections an answer goes to, and when a lobby is gone.
//!
//! The rules of the game are the lobby's. A connection is a number that the caller
//! gave it; the caller performs the [`Action`]s, and calls back when a timer is due.

use vstd::prelude::*;

use crate::laws::{
    is_error, law_empty_is_announced, law_lobbies_keep_their_code, law_refusals_change_nothing,
};
use crate::lobby::{cast_of, outs, widen, Event, Lobby, Out, Ranges, Settings, Timer};
use crate::model::{EventView, LobbyView, OutView, RangesView, SettingsView, TimerView};
use crate::ordering::{
    first, kept, lemma_filter_keeps, lemma_filter_keeps_pairs, lemma_first, lemma_first_exists,
    lemma_first_none,
};
use crate::protocol::{ClientMsg, ClientMsgView, ServerMsg, ServerMsgView, Spot};
use crate::rng::{Rng, RngView};
use crate::session::{code_text, draw_code, gen_token, law_codes_are_capitals, token_text};
use crate::text::{
    in_capitals, is_blank, is_capitals, law_capitals_are_understood, same, spells, to_uppercase,
    trim, trimmed,
};

verus! {

/// Something the server's transport must do.
pub enum Action {
    /// Deliver a message to each of these connections.
    Send { conns: Vec<u64>, msg: ServerMsg },
    /// Call `Server::fire` with this lobby and timer after so many milliseconds.
    Wake { code: String, delay_ms: u64, timer: Timer },
    /// Build the world of the round that starts, and call `Server::lay_out` with it.
    LayOut { code: String, seed: u32, mutator: String },
}

pub enum ActionView {
    Send { conns: Seq<u64>, msg: ServerMsgView },
    Wake { code: Seq<char>, delay_ms: int, timer: TimerView },
    LayOut { code: Seq<char>, seed: int, mutator: Seq<char> },
}

impl View for Action {
    type V = ActionView;

    open spec fn view(&self) -> ActionView {
        match *self {
            Action::Send { conns, msg } => ActionView::Send { conns: conns@, msg: msg@ },
            Action::Wake { code, delay_ms, timer } => ActionView::Wake {
                code: code@,
                delay_ms: delay_ms as int,
                timer: timer@,
            },
            Action::LayOut { code, seed, mutator } => ActionView::LayOut {
                code: code@,
                seed: seed as int,
                mutator: mutator@,
            },
        }
    }
}

pub open spec fn actions(s: Seq<Action>) -> Seq<ActionView> {
    s.map_values(|a: Action| a@)
}

fn act(todo: &mut Vec<Action>, a: Action)
    ensures
        actions(final(todo)@) == actions(old(todo)@).push(a@),
{
    let ghost before = todo@;
    todo.push(a);
    assert(actions(todo@) =~= actions(before).push(a@));
}

pub open spec fn is_player(id: int) -> spec_fn((u32, u64)) -> bool {
    |s: (u32, u64)| s.0 == id
}

pub open spec fn is_other(id: int) -> spec_fn((u32, u64)) -> bool {
    |s: (u32, u64)| s.0 != id
}

pub open spec fn connections(sockets: Seq<(u32, u64)>) -> Seq<u64> {
    sockets.map_values(|s: (u32, u64)| s.1)
}

/// What delivering has come to: who is reached by which connection, what the transport
/// must do, which player the sender was bound to, which players stopped existing, and
/// whether nobody is left.
pub struct Delivery {
    pub sockets: Seq<(u32, u64)>,
    pub actions: Seq<ActionView>,
    pub bound: Option<int>,
    pub unbound: Seq<int>,
    pub empty: bool,
}

impl Delivery {
    pub open spec fn starting(sockets: Seq<(u32, u64)>) -> Delivery {
        Delivery {
            sockets,
            actions: Seq::empty(),
            bound: None,
            unbound: Seq::empty(),
            empty: false,
        }
    }

    /// Where a message to a player goes: to their connection, and if they have none, to
    /// the one that is being served.
    pub open spec fn reached_by(self, id: int, pending: Option<u64>) -> Option<u64> {
        match first(self.sockets, is_player(id)) {
            Some(i) => Some(self.sockets[i].1),
            None => pending,
        }
    }

    pub open spec fn doing(self, a: ActionView) -> Delivery {
        Delivery { actions: self.actions.push(a), ..self }
    }

    /// One more thing the lobby asked for is seen to.
    pub open spec fn deliver(
        self,
        code: Seq<char>,
        pending: Option<u64>,
        now: int,
        out: OutView,
    ) -> Delivery {
        match out {
            OutView::Bound(id) => Delivery {
                sockets: match pending {
                    Some(conn) => self.sockets.filter(is_other(id)).push((id as u32, conn)),
                    None => self.sockets,
                },
                bound: Some(id),
                ..self
            },
            OutView::Unbound(id) => Delivery {
                sockets: self.sockets.filter(is_other(id)),
                unbound: self.unbound.push(id),
                ..self
            },
            OutView::To(id, msg) => match self.reached_by(id, pending) {
                Some(conn) => self.doing(ActionView::Send { conns: seq![conn], msg }),
                None => self,
            },
            OutView::Reply(msg) => match pending {
                Some(conn) => self.doing(ActionView::Send { conns: seq![conn], msg }),
                None => self,
            },
            OutView::All(msg) => {
                let all = ActionView::Send { conns: connections(self.sockets), msg };
                match msg {
                    ServerMsgView::RoundStart { seed, mutator, .. } => self.doing(
                        ActionView::LayOut { code, seed, mutator },
                    ).doing(all),
                    _ => self.doing(all),
                }
            },
            OutView::Schedule { at_ms, timer } => self.doing(
                ActionView::Wake {
                    code,
                    delay_ms: if at_ms > now {
                        at_ms - now
                    } else {
                        0
                    },
                    timer,
                },
            ),
            OutView::Empty => Delivery { empty: true, ..self },
        }
    }
}

/// What delivering everything a lobby asked for comes to, in order.
pub open spec fn delivered(
    sockets: Seq<(u32, u64)>,
    code: Seq<char>,
    pending: Option<u64>,
    now: int,
    outs: Seq<OutView>,
) -> Delivery
    decreases outs.len(),
{
    if outs.len() == 0 {
        Delivery::starting(sockets)
    } else {
        delivered(sockets, code, pending, now, outs.drop_last()).deliver(
            code,
            pending,
            now,
            outs.last(),
        )
    }
}

/// Forgets the connection of a player.
fn drop_socket(sockets: &mut Vec<(u32, u64)>, id: u32)
    ensures
        final(sockets)@ == old(sockets)@.filter(is_other(id as int)),
{
    let passes = |s: (u32, u64)| -> (b: bool)
        ensures
            b == is_other(id as int)(s),
        {
            s.0 != id
        };
    *sockets = kept(sockets, passes, Ghost(is_other(id as int)));
}

/// The connection of a player.
fn socket_of(sockets: &Vec<(u32, u64)>, id: u32) -> (conn: Option<u64>)
    ensures
        conn == match first(sockets@, is_player(id as int)) {
            Some(i) => Some(sockets@[i].1),
            None => None,
        },
{
    let mut i: usize = 0;
    while i < sockets.len()
        invariant
            i <= sockets.len(),
            forall|j: int| 0 <= j < i ==> (#[trigger] sockets@[j]).0 != id,
        decreases sockets.len() - i,
    {
        if sockets[i].0 == id {
            proof {
                lemma_first(sockets@, is_player(id as int), i as int);
            }
            return Some(sockets[i].1);
        }
        i += 1;
    }
    proof {
        lemma_first_none(sockets@, is_player(id as int));
    }
    None
}

fn all_connections(sockets: &Vec<(u32, u64)>) -> (conns: Vec<u64>)
    ensures
        conns@ == connections(sockets@),
{
    let mut conns: Vec<u64> = Vec::new();
    let mut i: usize = 0;
    while i < sockets.len()
        invariant
            i <= sockets.len(),
            conns.len() == i,
            forall|j: int| 0 <= j < i ==> #[trigger] conns@[j] == sockets@[j].1,
        decreases sockets.len() - i,
    {
        conns.push(sockets[i].1);
        i += 1;
    }
    assert(conns@ =~= connections(sockets@));
    conns
}

/// What the caller has to know after delivering: which player this connection was
/// bound to, and which players stopped existing.
struct Delivered {
    bound: Option<u32>,
    unbound: Vec<u32>,
    empty: bool,
}

spec fn ids(s: Seq<u32>) -> Seq<int> {
    s.map_values(|id: u32| id as int)
}

impl Delivered {
    /// Whether sockets, to-do list and this record are what a delivery came to.
    spec fn is(self, d: Delivery, sockets: Seq<(u32, u64)>, todo: Seq<Action>) -> bool {
        &&& sockets == d.sockets
        &&& actions(todo) == d.actions
        &&& widen(self.bound) == d.bound
        &&& ids(self.unbound@) == d.unbound
        &&& self.empty == d.empty
    }

    fn deliver(
        &mut self,
        sockets: &mut Vec<(u32, u64)>,
        todo: &mut Vec<Action>,
        code: &str,
        pending: Option<u64>,
        now_ms: u64,
        out: Out,
        Ghost(d): Ghost<Delivery>,
    )
        requires
            old(self).is(d, old(sockets)@, old(todo)@),
        ensures
            final(self).is(
                d.deliver(code@, pending, now_ms as int, out@),
                final(sockets)@,
                final(todo)@,
            ),
    {
        match out {
            Out::Bound(id) => {
                if let Some(conn) = pending {
                    drop_socket(sockets, id);
                    sockets.push((id, conn));
                }
                self.bound = Some(id);
            },
            Out::Unbound(id) => {
                drop_socket(sockets, id);
                let ghost before = self.unbound@;
                self.unbound.push(id);
                assert(ids(self.unbound@) =~= ids(before).push(id as int));
            },
            Out::To(id, msg) => {
                // a connection that has not been bound yet is how a rejected Create or
                // Join is answered
                let conn = match socket_of(sockets, id) {
                    Some(conn) => Some(conn),
                    None => pending,
                };
                if let Some(conn) = conn {
                    let conns = vec![conn];
                    assert(conns@ =~= seq![conn]);
                    act(todo, Action::Send { conns, msg });
                }
            },
            Out::Reply(msg) => {
                if let Some(conn) = pending {
                    let conns = vec![conn];
                    assert(conns@ =~= seq![conn]);
                    act(todo, Action::Send { conns, msg });
                }
            },
            Out::All(msg) => {
                if let ServerMsg::RoundStart { seed, mutator, .. } = &msg {
                    act(
                        todo,
                        Action::LayOut {
                            code: code.to_owned(),
                            seed: *seed,
                            mutator: mutator.clone(),
                        },
                    );
                }
                act(todo, Action::Send { conns: all_connections(sockets), msg });
            },
            Out::Schedule { at_ms, timer } => {
                let delay_ms = at_ms.saturating_sub(now_ms);
                act(todo, Action::Wake { code: code.to_owned(), delay_ms, timer });
            },
            Out::Empty => {
                self.empty = true;
            },
        }
    }
}

/// Deliver what the state machine asked for, and schedule what it asked to be
/// reminded of.
fn deliver(
    sockets: &mut Vec<(u32, u64)>,
    todo: &mut Vec<Action>,
    code: &str,
    pending: Option<u64>,
    now_ms: u64,
    all: Vec<Out>,
) -> (done: Delivered)
    requires
        actions(old(todo)@) == Seq::<ActionView>::empty(),
    ensures
        done.is(
            delivered(old(sockets)@, code@, pending, now_ms as int, outs(all@)),
            final(sockets)@,
            final(todo)@,
        ),
{
    let ghost was = sockets@;
    let ghost every = outs(all@);
    let mut done = Delivered { bound: None, unbound: Vec::new(), empty: false };
    let mut left = all;
    let ghost mut seen: int = 0;
    proof {
        assert(ids(done.unbound@) =~= Seq::empty());
        assert(every.take(0).len() == 0);
        assert(every.skip(0) =~= every);
    }
    while left.len() > 0
        invariant
            0 <= seen <= every.len(),
            outs(left@) == every.skip(seen),
            done.is(
                delivered(was, code@, pending, now_ms as int, every.take(seen)),
                sockets@,
                todo@,
            ),
        decreases left.len(),
    {
        let ghost d = delivered(was, code@, pending, now_ms as int, every.take(seen));
        let ghost before = left@;
        let out = left.remove(0);
        proof {
            assert(every.skip(seen).len() == before.len());
            assert(out@ == outs(before)[0]);
            assert(out@ == every[seen]);
            assert(every.take(seen + 1).drop_last() =~= every.take(seen));
            assert(outs(left@) =~= every.skip(seen + 1)) by {
                assert forall|j: int| 0 <= j < left@.len() implies outs(left@)[j] == every.skip(
                    seen + 1,
                )[j] by {
                    assert(left@[j] == before[j + 1]);
                    assert(outs(before)[j + 1] == every.skip(seen)[j + 1]);
                }
            }
        }
        done.deliver(sockets, todo, code, pending, now_ms, out, Ghost(d));
        proof {
            seen = seen + 1;
        }
    }
    assert(every.skip(seen).len() == 0);
    assert(every.take(seen) =~= every);
    done
}

pub struct RoomView {
    pub lobby: LobbyView,
    pub sockets: Seq<(u32, u64)>,
}

pub struct ServerView {
    pub rooms: Seq<RoomView>,
    pub next_id: u32,
    pub rng: RngView,
}

/// The server after it dealt with something, the sender's session then, and what the
/// transport must do.
pub struct Served {
    pub server: ServerView,
    pub session: Option<(Seq<char>, int)>,
    pub actions: Seq<ActionView>,
}

pub open spec fn has_code(code: Seq<char>) -> spec_fn(RoomView) -> bool {
    |r: RoomView| r.lobby.code == code
}

/// The code a player meant by what they typed.
pub open spec fn code_meant(typed: Seq<char>) -> Seq<char> {
    in_capitals(trimmed(typed))
}

fn meant(typed: &str) -> (code: String)
    ensures
        code@ == code_meant(typed@),
{
    to_uppercase(trim(typed).as_str())
}

impl RoomView {
    pub open spec fn opened(code: Seq<char>, settings: SettingsView) -> RoomView {
        RoomView { lobby: LobbyView::opened(code, settings), sockets: Seq::empty() }
    }
}

impl ServerView {
    pub open spec fn find(self, code: Seq<char>) -> Option<int> {
        first(self.rooms, has_code(code))
    }

    /// What is always true of a server: its lobbies are valid, no two share a code, and
    /// someone is in each.
    pub open spec fn valid(self) -> bool {
        &&& self.sound()
        &&& forall|i: int|
            0 <= i < self.rooms.len() ==> (#[trigger] self.rooms[i]).lobby.players.len() > 0
    }

    /// The lobbies are valid, and no two share a code.
    pub open spec fn sound(self) -> bool {
        &&& forall|i: int| 0 <= i < self.rooms.len() ==> (#[trigger] self.rooms[i]).lobby.valid()
        &&& forall|i: int, j: int|
            0 <= i < j < self.rooms.len() ==> (#[trigger] self.rooms[i]).lobby.code != (
            #[trigger] self.rooms[j]).lobby.code
    }

    /// Whether the lobby with this code, if there is one, can take one more event at
    /// `now`.
    pub open spec fn headroom(self, now: int, code: Seq<char>) -> bool {
        self.find(code) matches Some(i) ==> self.rooms[i].lobby.headroom(now)
    }

    /// Whether the lobby that a message concerns can take it at `now`: the one its sender
    /// is in, the one it names, or the one it opens.
    pub open spec fn ready(
        self,
        now: int,
        session: Option<(Seq<char>, int)>,
        msg: ClientMsgView,
        settings: SettingsView,
    ) -> bool {
        match session {
            Some((code, _)) => self.headroom(now, code),
            None => match msg {
                ClientMsgView::Create { .. } => LobbyView::opened(
                    Seq::empty(),
                    settings,
                ).headroom(now),
                ClientMsgView::Join { code, .. } => self.headroom(now, code_meant(code)),
                ClientMsgView::Rejoin { code, .. } => self.headroom(now, code_meant(code)),
                _ => true,
            },
        }
    }

    /// The first code that no lobby has among the next so many drawn, if any, and the
    /// random stream after them.
    pub open spec fn free_code(self, rng: RngView, tries: nat) -> (Option<Seq<char>>, RngView)
        decreases tries,
    {
        if tries == 0 {
            (None, rng)
        } else if self.find(code_text(rng)) is None {
            (Some(code_text(rng)), rng.after(4))
        } else {
            self.free_code(rng.after(4), (tries - 1) as nat)
        }
    }

    /// What delivering the consequences of an event in a lobby comes to.
    pub open spec fn delivery(
        self,
        i: int,
        now: int,
        event: EventView,
        pending: Option<u64>,
    ) -> Delivery {
        let room = self.rooms[i];
        let step = room.lobby.apply(now, self.rng, event);
        delivered(room.sockets, room.lobby.code, pending, now, step.outs)
    }

    /// The server after an event in a lobby. A lobby that nobody is left in is dropped.
    pub open spec fn applied(
        self,
        i: int,
        now: int,
        event: EventView,
        pending: Option<u64>,
    ) -> ServerView {
        let d = self.delivery(i, now, event, pending);
        let step = self.rooms[i].lobby.apply(now, self.rng, event);
        ServerView {
            rooms: if d.empty {
                self.rooms.remove(i)
            } else {
                self.rooms.update(i, RoomView { lobby: step.lobby, sockets: d.sockets })
            },
            rng: step.rng,
            ..self
        }
    }

    /// What a message is to the lobby it reaches.
    pub open spec fn raised(
        self,
        session: Option<(Seq<char>, int)>,
        msg: ClientMsgView,
        ranges: RangesView,
    ) -> EventView {
        EventView::Client {
            from: match session {
                Some((_, id)) => Some(id),
                None => None,
            },
            msg,
            id: self.next_id as int,
            token: token_text(self.rng),
            ranges,
        }
    }

    /// A message reaches its lobby.
    pub open spec fn passed_on(
        self,
        i: int,
        now: int,
        conn: u64,
        session: Option<(Seq<char>, int)>,
        msg: ClientMsgView,
        ranges: RangesView,
    ) -> Served {
        let event = self.raised(session, msg, ranges);
        let ready = ServerView {
            next_id: if self.next_id == u32::MAX {
                0
            } else {
                (self.next_id + 1) as u32
            },
            rng: self.rng.after(3),
            ..self
        };
        let d = ready.delivery(i, now, event, Some(conn));
        let bound = match d.bound {
            Some(id) => Some((self.rooms[i].lobby.code, id)),
            None => session,
        };
        Served {
            server: ready.applied(i, now, event, Some(conn)),
            session: match bound {
                Some((_, id)) => if d.unbound.contains(id) {
                    None
                } else {
                    bound
                },
                None => None,
            },
            actions: d.actions,
        }
    }

    /// The sender is told no, and nothing else happens.
    pub open spec fn refusing(
        self,
        conn: u64,
        session: Option<(Seq<char>, int)>,
        message: Seq<char>,
    ) -> Served {
        Served {
            server: self,
            session,
            actions: seq![
                ActionView::Send { conns: seq![conn], msg: ServerMsgView::Error { message } },
            ],
        }
    }

    pub open spec fn ignoring(self, session: Option<(Seq<char>, int)>) -> Served {
        Served { server: self, session, actions: Seq::empty() }
    }

    /// A message arrives. Create makes a lobby, Join and Rejoin name one, and
    /// everything else concerns the one the sender is in.
    pub open spec fn handled(
        self,
        now: int,
        conn: u64,
        session: Option<(Seq<char>, int)>,
        msg: ClientMsgView,
        ranges: RangesView,
        settings: SettingsView,
        tries: nat,
    ) -> Served {
        match session {
            Some((code, _)) => self.passed_on(
                self.find(code)->0,
                now,
                conn,
                session,
                msg,
                ranges,
            ),
            None => match msg {
                ClientMsgView::Create { .. } => {
                    let (free, rng) = self.free_code(self.rng, tries);
                    match free {
                        Some(code) => ServerView {
                            rooms: self.rooms.push(RoomView::opened(code, settings)),
                            rng,
                            ..self
                        }.passed_on(self.rooms.len() as int, now, conn, session, msg, ranges),
                        None => ServerView { rng, ..self }.refusing(
                            conn,
                            session,
                            "no lobby code is free"@,
                        ),
                    }
                },
                ClientMsgView::Join { code, .. } => match self.find(code_meant(code)) {
                    Some(i) => self.passed_on(i, now, conn, session, msg, ranges),
                    None => self.refusing(conn, session, "lobby not found"@),
                },
                ClientMsgView::Rejoin { code, .. } => match self.find(code_meant(code)) {
                    Some(i) => self.passed_on(i, now, conn, session, msg, ranges),
                    None => self.refusing(conn, session, "session expired"@),
                },
                ClientMsgView::Leave => self.ignoring(session),
                ClientMsgView::Click { .. } => self.ignoring(session),
                _ => self.refusing(conn, session, "not in a lobby"@),
            },
        }
    }

    /// A timer fires in a lobby, if it still exists.
    pub open spec fn fired(self, now: int, code: Seq<char>, timer: TimerView) -> Served {
        match self.find(code) {
            Some(i) => Served {
                server: self.applied(i, now, EventView::Fired(timer), None),
                session: None,
                actions: self.delivery(i, now, EventView::Fired(timer), None).actions,
            },
            None => self.ignoring(None),
        }
    }

    /// A connection is gone. If it was in a lobby that still exists, its player has
    /// dropped.
    pub open spec fn hung_up(
        self,
        now: int,
        conn: u64,
        session: Option<(Seq<char>, int)>,
    ) -> Served {
        match session {
            Some((code, id)) => match self.find(code) {
                Some(i) => Served {
                    server: self.applied(i, now, EventView::Dropped(id), Some(conn)),
                    session: None,
                    actions: self.delivery(i, now, EventView::Dropped(id), Some(conn)).actions,
                },
                None => self.ignoring(None),
            },
            None => self.ignoring(None),
        }
    }

    /// The world of a lobby's round is placed in it.
    pub open spec fn laid_out(
        self,
        code: Seq<char>,
        waldo: Spot,
        cast: Seq<(Seq<char>, Spot)>,
    ) -> ServerView {
        match self.find(code) {
            Some(i) => ServerView {
                rooms: self.rooms.update(
                    i,
                    RoomView {
                        lobby: self.rooms[i].lobby.laid_out(waldo, cast),
                        ..self.rooms[i]
                    },
                ),
                ..self
            },
            None => self,
        }
    }
}

/// Someone is in every lobby but perhaps one.
spec fn only_empty(server: ServerView, i: int) -> bool {
    forall|j: int|
        0 <= j < server.rooms.len() && j != i ==> (#[trigger] server.rooms[j]).lobby.players.len()
            > 0
}

/// One lobby plus the connections to reach its players by.
struct Room {
    lobby: Lobby,
    sockets: Vec<(u32, u64)>,
}

impl View for Room {
    type V = RoomView;

    closed spec fn view(&self) -> RoomView {
        RoomView { lobby: self.lobby@, sockets: self.sockets@ }
    }
}

spec fn rooms_of(s: Seq<Room>) -> Seq<RoomView> {
    s.map_values(|r: Room| r@)
}

/// Every lobby on the server.
pub struct Server {
    rooms: Vec<Room>,
    next_id: u32,
    rng: Rng,
}

impl View for Server {
    type V = ServerView;

    closed spec fn view(&self) -> ServerView {
        ServerView { rooms: rooms_of(self.rooms@), next_id: self.next_id, rng: self.rng@ }
    }
}

/// A session as the contracts speak of it.
pub open spec fn session_of(session: Option<(String, u32)>) -> Option<(Seq<char>, int)> {
    match session {
        Some((code, id)) => Some((code@, id as int)),
        None => None,
    }
}

/// The seed that a clock reading gives the server's random stream: nanoseconds since
/// the epoch, and the part of them below a second.
pub open spec fn clock_seed(nanos: u64, subsec_nanos: u32) -> u64 {
    nanos ^ ((subsec_nanos as u64) << 17)
}

/// A random stream that no two servers are likely to share.
pub fn seeded_rng(nanos: u64, subsec_nanos: u32) -> (rng: Rng)
    ensures
        rng@ == RngView::seeded(clock_seed(nanos, subsec_nanos)),
{
    Rng::new(nanos ^ ((subsec_nanos as u64) << 17))
}

impl Server {
    /// A server without lobbies, whose first player will have id 1.
    pub fn new(rng: Rng) -> (server: Self)
        ensures
            server@ == (ServerView { rooms: Seq::empty(), next_id: 1, rng: rng@ }),
            server@.valid(),
    {
        let server = Server { rooms: Vec::new(), next_id: 1, rng };
        assert(server@.rooms =~= Seq::empty());
        server
    }

    fn index_of(&self, code: &str) -> (r: Option<usize>)
        ensures
            match r {
                Some(i) => self@.find(code@) == Some(i as int) && i < self.rooms@.len()
                    && self@.rooms[i as int].lobby.code == code@,
                None => self@.find(code@) is None,
            },
    {
        let mut i: usize = 0;
        while i < self.rooms.len()
            invariant
                i <= self.rooms.len(),
                forall|j: int| 0 <= j < i ==> (#[trigger] self@.rooms[j]).lobby.code != code@,
            decreases self.rooms.len() - i,
        {
            assert(self@.rooms[i as int] == self.rooms@[i as int]@);
            if same(self.rooms[i].lobby.code(), code) {
                proof {
                    lemma_first(self@.rooms, has_code(code@), i as int);
                }
                return Some(i);
            }
            i += 1;
        }
        proof {
            lemma_first_none(self@.rooms, has_code(code@));
        }
        None
    }

    /// Whether a lobby has this code.
    pub fn has_room(&self, code: &str) -> (r: bool)
        ensures
            r == (self@.find(code@) is Some),
    {
        self.index_of(code).is_some()
    }

    /// The lobby with this code.
    pub fn lobby(&self, code: &str) -> (r: Option<&Lobby>)
        ensures
            match r {
                Some(lobby) => self@.find(code@) is Some && lobby@
                    == self@.rooms[self@.find(code@)->0].lobby,
                None => self@.find(code@) is None,
            },
    {
        match self.index_of(code) {
            Some(i) => {
                assert(self@.rooms[i as int] == self.rooms@[i as int]@);
                Some(&self.rooms[i].lobby)
            },
            None => None,
        }
    }

    /// Whether the lobby with this code, if there is one, can take one more event at
    /// `now_ms`.
    pub fn has_headroom(&self, now_ms: u64, code: &str) -> (r: bool)
        ensures
            r == self@.headroom(now_ms as int, code@),
    {
        match self.lobby(code) {
            Some(lobby) => lobby.has_headroom(now_ms),
            None => true,
        }
    }

    /// Whether the lobby that a message concerns can take it at `now_ms`.
    pub fn is_ready(
        &self,
        now_ms: u64,
        session: &Option<(String, u32)>,
        msg: &ClientMsg,
        settings: &Settings,
    ) -> (r: bool)
        ensures
            r == self@.ready(now_ms as int, session_of(*session), msg@, settings@),
    {
        match session {
            Some((code, _)) => self.has_headroom(now_ms, code.as_str()),
            None => match msg {
                ClientMsg::Create { .. } => settings.fits(now_ms),
                ClientMsg::Join { code, .. } => self.has_headroom(
                    now_ms,
                    meant(code.as_str()).as_str(),
                ),
                ClientMsg::Rejoin { code, .. } => self.has_headroom(
                    now_ms,
                    meant(code.as_str()).as_str(),
                ),
                _ => true,
            },
        }
    }

    /// Draws one code, and gives it if it is free.
    fn try_code(&mut self) -> (code: Option<String>)
        ensures
            final(self)@ == (ServerView { rng: old(self)@.rng.after(4), ..old(self)@ }),
            match code {
                Some(c) => c@ == code_text(old(self)@.rng) && old(self)@.find(c@) is None,
                None => old(self)@.find(code_text(old(self)@.rng)) is Some,
            },
    {
        let code = draw_code(&mut self.rng);
        if self.has_room(code.as_str()) {
            None
        } else {
            Some(code)
        }
    }

    /// Draws codes until one is free, at most so many.
    fn gen_code(&mut self, tries: u64) -> (code: Option<String>)
        ensures
            ({
                let (free, rng) = old(self)@.free_code(old(self)@.rng, tries as nat);
                &&& final(self)@ == (ServerView { rng, ..old(self)@ })
                &&& match code {
                    Some(c) => free == Some(c@) && old(self)@.find(c@) is None,
                    None => free is None,
                }
            }),
    {
        let ghost was = self@;
        let mut left = tries;
        while left > 0
            invariant
                was == old(self)@,
                self@ == (ServerView { rng: self@.rng, ..was }),
                was.free_code(was.rng, tries as nat) == was.free_code(self@.rng, left as nat),
            decreases left,
        {
            let ghost mid = self@;
            let code = self.try_code();
            assert(was.find(code_text(mid.rng)) == mid.find(code_text(mid.rng)));
            if code.is_some() {
                return code;
            }
            left -= 1;
        }
        None
    }

    /// Lets something happen in a lobby, and delivers what follows from it.
    fn apply(
        &mut self,
        i: usize,
        now_ms: u64,
        event: Event,
        pending: Option<u64>,
        todo: &mut Vec<Action>,
    ) -> (done: Delivered)
        requires
            old(self)@.sound(),
            only_empty(old(self)@, i as int),
            i < old(self)@.rooms.len(),
            old(self)@.rooms[i as int].lobby.headroom(now_ms as int),
            actions(old(todo)@) == Seq::<ActionView>::empty(),
        ensures
            final(self)@ == old(self)@.applied(i as int, now_ms as int, event@, pending),
            final(self)@.valid(),
            ({
                let d = old(self)@.delivery(i as int, now_ms as int, event@, pending);
                done.is(d, d.sockets, final(todo)@)
            }),
    {
        let ghost was = self@;
        assert(was.rooms[i as int] == self.rooms@[i as int]@);
        let code = self.rooms[i].lobby.code().to_owned();
        let outs = self.rooms[i].lobby.apply(now_ms, &mut self.rng, event);
        let done = deliver(
            &mut self.rooms[i].sockets,
            todo,
            code.as_str(),
            pending,
            now_ms,
            outs,
        );
        if done.empty {
            self.rooms.remove(i);
        }
        proof {
            let now = self@;
            law_empty_lobbies_are_dropped(was, i as int, now_ms as int, event@, pending);
            law_lobbies_keep_their_code(
                was.rooms[i as int].lobby,
                now_ms as int,
                was.rng,
                event@,
            );
            assert(now.rooms =~= was.applied(i as int, now_ms as int, event@, pending).rooms);
            if done.empty {
                assert forall|j: int| 0 <= j < now.rooms.len() implies (
                #[trigger] now.rooms[j]).lobby.valid() && now.rooms[j].lobby.players.len() > 0 by {
                    let k = if j < i {
                        j
                    } else {
                        j + 1
                    };
                    assert(now.rooms[j] == was.rooms[k]);
                }
                assert forall|j: int, k: int| 0 <= j < k < now.rooms.len() implies (
                #[trigger] now.rooms[j]).lobby.code != (#[trigger] now.rooms[k]).lobby.code by {
                    let a = if j < i {
                        j
                    } else {
                        j + 1
                    };
                    let b = if k < i {
                        k
                    } else {
                        k + 1
                    };
                    assert(now.rooms[j] == was.rooms[a] && now.rooms[k] == was.rooms[b]);
                }
            }
        }
        done
    }

    /// Hands a message to a lobby and takes note of what becomes of the sender.
    #[verifier::spinoff_prover]
    fn pass_on(
        &mut self,
        i: usize,
        now_ms: u64,
        conn: u64,
        session: &mut Option<(String, u32)>,
        msg: ClientMsg,
        ranges: Ranges,
    ) -> (todo: Vec<Action>)
        requires
            old(self)@.sound(),
            only_empty(old(self)@, i as int),
            i < old(self)@.rooms.len(),
            old(self)@.rooms[i as int].lobby.headroom(now_ms as int),
        ensures
            ({
                let served = old(self)@.passed_on(
                    i as int,
                    now_ms as int,
                    conn,
                    session_of(*old(session)),
                    msg@,
                    ranges@,
                );
                &&& final(self)@ == served.server
                &&& session_of(*final(session)) == served.session
                &&& actions(todo@) == served.actions
            }),
            final(self)@.valid(),
    {
        let mut todo: Vec<Action> = Vec::new();
        assert(actions(todo@) =~= Seq::empty());
        let ghost was = self@;
        assert(was.rooms[i as int] == self.rooms@[i as int]@);
        let code = self.rooms[i].lobby.code().to_owned();
        let from = match session {
            Some((_, id)) => Some(*id),
            None => None,
        };
        let id = self.next_id;
        self.next_id = if id == u32::MAX {
            0
        } else {
            id + 1
        };
        let token = gen_token(&mut self.rng);
        let event = Event::Client { from, msg, id, token, ranges };
        let ghost ready = self@;
        assert(ready.rooms =~= was.rooms);
        let done = self.apply(i, now_ms, event, Some(conn), &mut todo);
        let ghost d = ready.delivery(i as int, now_ms as int, event@, Some(conn));
        if let Some(id) = done.bound {
            *session = Some((code, id));
        }
        // Leave, or a removal that took us with it, frees the socket for a fresh lobby.
        let mut freed = false;
        if let Some((_, id)) = session {
            let mut k: usize = 0;
            while k < done.unbound.len()
                invariant
                    k <= done.unbound.len(),
                    freed == exists|j: int| 0 <= j < k && #[trigger] done.unbound@[j] == *id,
                decreases done.unbound.len() - k,
            {
                if done.unbound[k] == *id {
                    freed = true;
                }
                k += 1;
            }
            proof {
                if freed {
                    let j = choose|j: int| 0 <= j < k && #[trigger] done.unbound@[j] == *id;
                    assert(ids(done.unbound@)[j] == *id);
                } else if d.unbound.contains(*id as int) {
                    let j = choose|j: int| 0 <= j < d.unbound.len() && d.unbound[j] == *id;
                    assert(done.unbound@[j] == *id);
                }
            }
        }
        if freed {
            *session = None;
        }
        todo
    }

    /// Deals with a message from a connection. `tries` bounds how many codes are drawn
    /// for a new lobby.
    #[verifier::spinoff_prover]
    pub fn handle(
        &mut self,
        now_ms: u64,
        conn: u64,
        session: &mut Option<(String, u32)>,
        msg: ClientMsg,
        ranges: Ranges,
        settings: Settings,
        tries: u64,
    ) -> (todo: Vec<Action>)
        requires
            old(self)@.valid(),
            old(self)@.ready(now_ms as int, session_of(*old(session)), msg@, settings@),
            session_of(*old(session)) matches Some((code, _)) ==> old(self)@.find(code) is Some,
        ensures
            ({
                let served = old(self)@.handled(
                    now_ms as int,
                    conn,
                    session_of(*old(session)),
                    msg@,
                    ranges@,
                    settings@,
                    tries as nat,
                );
                &&& final(self)@ == served.server
                &&& session_of(*final(session)) == served.session
                &&& actions(todo@) == served.actions
            }),
            final(self)@.valid(),
    {
        let in_lobby = match session {
            Some((code, _)) => self.index_of(code.as_str()),
            None => None,
        };
        if let Some(i) = in_lobby {
            return self.pass_on(i, now_ms, conn, session, msg, ranges);
        }
        let named = match &msg {
            ClientMsg::Create { .. } => {
                match self.gen_code(tries) {
                    None => {
                        return refusal(conn, "no lobby code is free");
                    },
                    Some(code) => {
                        self.open_room(code, settings);
                        Some(self.rooms.len() - 1)
                    },
                }
            },
            ClientMsg::Join { code, .. } => {
                let i = self.index_of(meant(code.as_str()).as_str());
                if i.is_none() {
                    return refusal(conn, "lobby not found");
                }
                i
            },
            ClientMsg::Rejoin { code, .. } => {
                let i = self.index_of(meant(code.as_str()).as_str());
                if i.is_none() {
                    return refusal(conn, "session expired");
                }
                i
            },
            ClientMsg::Leave => {
                return no_actions();
            },
            ClientMsg::Click { .. } => {
                return no_actions();
            },
            _ => {
                return refusal(conn, "not in a lobby");
            },
        };
        match named {
            Some(i) => self.pass_on(i, now_ms, conn, session, msg, ranges),
            None => no_actions(),
        }
    }

    /// Deals with a message from a connection if the lobby it concerns can take it, and
    /// otherwise leaves everything as it is.
    pub fn try_handle(
        &mut self,
        now_ms: u64,
        conn: u64,
        session: &mut Option<(String, u32)>,
        msg: ClientMsg,
        ranges: Ranges,
        settings: Settings,
        tries: u64,
    ) -> (todo: Option<Vec<Action>>)
        requires
            old(self)@.valid(),
            session_of(*old(session)) matches Some((code, _)) ==> old(self)@.find(code) is Some,
        ensures
            match todo {
                Some(todo) => {
                    let served = old(self)@.handled(
                        now_ms as int,
                        conn,
                        session_of(*old(session)),
                        msg@,
                        ranges@,
                        settings@,
                        tries as nat,
                    );
                    &&& old(self)@.ready(now_ms as int, session_of(*old(session)), msg@, settings@)
                    &&& final(self)@ == served.server
                    &&& session_of(*final(session)) == served.session
                    &&& actions(todo@) == served.actions
                },
                None => {
                    &&& !old(self)@.ready(now_ms as int, session_of(*old(session)), msg@, settings@)
                    &&& *final(self) == *old(self)
                    &&& *final(session) == *old(session)
                },
            },
            final(self)@.valid(),
    {
        if self.is_ready(now_ms, session, &msg, &settings) {
            Some(self.handle(now_ms, conn, session, msg, ranges, settings, tries))
        } else {
            None
        }
    }

    /// Adds a lobby that nobody is in yet.
    fn open_room(&mut self, code: String, settings: Settings)
        requires
            old(self)@.valid(),
            old(self)@.find(code@) is None,
        ensures
            final(self)@ == (ServerView {
                rooms: old(self)@.rooms.push(RoomView::opened(code@, settings@)),
                ..old(self)@
            }),
            final(self)@.sound(),
            only_empty(final(self)@, old(self)@.rooms.len() as int),
            final(self).rooms.len() == old(self)@.rooms.len() + 1,
    {
        let ghost was = self@;
        self.rooms.push(Room { lobby: Lobby::new(code, settings), sockets: Vec::new() });
        proof {
            assert(self@.rooms =~= was.rooms.push(RoomView::opened(code@, settings@)));
            assert forall|i: int| 0 <= i < was.rooms.len() implies (
            #[trigger] was.rooms[i]).lobby.code != code@ by {
                if was.rooms[i].lobby.code == code@ {
                    lemma_first_exists(was.rooms, has_code(code@), i);
                }
            }
        }
    }

    /// Deals with a timer that has come due.
    pub fn fire(&mut self, now_ms: u64, code: &str, timer: Timer) -> (todo: Vec<Action>)
        requires
            old(self)@.valid(),
            old(self)@.headroom(now_ms as int, code@),
        ensures
            ({
                let served = old(self)@.fired(now_ms as int, code@, timer@);
                &&& final(self)@ == served.server
                &&& actions(todo@) == served.actions
            }),
            final(self)@.valid(),
    {
        let mut todo = no_actions();
        if let Some(i) = self.index_of(code) {
            self.apply(i, now_ms, Event::Fired(timer), None, &mut todo);
        }
        todo
    }

    /// Deals with a connection that is gone.
    pub fn hang_up(
        &mut self,
        now_ms: u64,
        conn: u64,
        session: Option<(String, u32)>,
    ) -> (todo: Vec<Action>)
        requires
            old(self)@.valid(),
            session_of(session) matches Some((code, _)) ==> old(self)@.headroom(
                now_ms as int,
                code,
            ),
        ensures
            ({
                let served = old(self)@.hung_up(now_ms as int, conn, session_of(session));
                &&& final(self)@ == served.server
                &&& actions(todo@) == served.actions
            }),
            final(self)@.valid(),
    {
        let mut todo = no_actions();
        if let Some((code, id)) = session {
            if let Some(i) = self.index_of(code.as_str()) {
                self.apply(i, now_ms, Event::Dropped(id), Some(conn), &mut todo);
            }
        }
        todo
    }

    /// Places Waldo and the cast in the world of a lobby's round.
    pub fn lay_out(&mut self, code: &str, waldo: Spot, cast: Vec<(String, Spot)>)
        requires
            old(self)@.valid(),
        ensures
            final(self)@ == old(self)@.laid_out(code@, waldo, cast_of(cast@)),
            final(self)@.valid(),
    {
        let ghost was = self@;
        if let Some(i) = self.index_of(code) {
            assert(was.rooms[i as int] == self.rooms@[i as int]@);
            self.rooms[i].lobby.lay_out(waldo, cast);
            assert(self@.rooms =~= was.laid_out(code@, waldo, cast_of(cast@)).rooms);
        }
    }
}

fn no_actions() -> (todo: Vec<Action>)
    ensures
        actions(todo@) == Seq::<ActionView>::empty(),
{
    let todo: Vec<Action> = Vec::new();
    assert(actions(todo@) =~= Seq::empty());
    todo
}

/// Tells a connection no.
pub fn refusal(conn: u64, message: &str) -> (todo: Vec<Action>)
    ensures
        actions(todo@) == seq![
            ActionView::Send {
                conns: seq![conn],
                msg: ServerMsgView::Error { message: message@ },
            },
        ],
{
    let mut todo = no_actions();
    let conns = vec![conn];
    assert(conns@ =~= seq![conn]);
    act(&mut todo, Action::Send { conns, msg: ServerMsg::Error { message: message.to_owned() } });
    assert(actions(todo@) =~= seq![
        ActionView::Send { conns: seq![conn], msg: ServerMsgView::Error { message: message@ } },
    ]);
    todo
}

proof fn lemma_delivered_empty(
    sockets: Seq<(u32, u64)>,
    code: Seq<char>,
    pending: Option<u64>,
    now: int,
    all: Seq<OutView>,
)
    ensures
        delivered(sockets, code, pending, now, all).empty == all.contains(OutView::Empty),
    decreases all.len(),
{
    if all.len() > 0 {
        let fewer = all.drop_last();
        lemma_delivered_empty(sockets, code, pending, now, fewer);
        if fewer.contains(OutView::Empty) {
            let k = choose|k: int| 0 <= k < fewer.len() && fewer[k] == OutView::Empty;
            assert(all[k] == OutView::Empty);
        }
        if all.contains(OutView::Empty) && all.last() != OutView::Empty {
            let k = choose|k: int| 0 <= k < all.len() && all[k] == OutView::Empty;
            assert(fewer[k] == OutView::Empty);
        }
    }
}

/// A lobby exists for exactly as long as someone is in it: an event drops it if and
/// only if it leaves nobody, and touches no other lobby.
pub proof fn law_empty_lobbies_are_dropped(
    server: ServerView,
    i: int,
    now: int,
    event: EventView,
    pending: Option<u64>,
)
    requires
        0 <= i < server.rooms.len(),
    ensures
        ({
            let after = server.applied(i, now, event, pending);
            let lobby = server.rooms[i].lobby.apply(now, server.rng, event).lobby;
            &&& lobby.players.len() == 0 ==> after.rooms == server.rooms.remove(i)
            &&& lobby.players.len() > 0 ==> after.rooms.len() == server.rooms.len()
                && after.rooms[i].lobby == lobby && forall|j: int|
                0 <= j < server.rooms.len() && j != i ==> #[trigger] after.rooms[j]
                    == server.rooms[j]
        }),
{
    let room = server.rooms[i];
    let step = room.lobby.apply(now, server.rng, event);
    lemma_delivered_empty(room.sockets, room.lobby.code, pending, now, step.outs);
    law_empty_is_announced(room.lobby, now, server.rng, event);
}

/// A new lobby's code is one that no lobby has, and four capital letters.
pub proof fn law_new_codes_are_free(server: ServerView, rng: RngView, tries: nat)
    ensures
        server.free_code(rng, tries).0 matches Some(code) ==> server.find(code) is None
            && code.len() == 4 && is_capitals(code),
    decreases tries,
{
    law_codes_are_capitals(rng);
    if tries > 0 {
        if server.find(code_text(rng)) is Some {
            law_new_codes_are_free(server, rng.after(4), (tries - 1) as nat);
        }
    }
}

/// A lobby is found however its code is typed: in small letters, capitals or both, and
/// with white space around it.
pub proof fn law_codes_are_found_however_typed(
    server: ServerView,
    code: Seq<char>,
    before: Seq<char>,
    typed: Seq<char>,
    after: Seq<char>,
)
    requires
        is_capitals(code),
        code.len() > 0,
        spells(typed, code),
        is_blank(before),
        is_blank(after),
    ensures
        code_meant(before + typed + after) == code,
        server.find(code_meant(before + typed + after)) == server.find(code),
{
    law_capitals_are_understood(code, before, typed, after);
}

/// No player is reached by two connections.
pub open spec fn one_connection_each(sockets: Seq<(u32, u64)>) -> bool {
    forall|i: int, j: int|
        0 <= i < j < sockets.len() ==> (#[trigger] sockets[i]).0 != (#[trigger] sockets[j]).0
}

spec fn differ_in_player() -> spec_fn((u32, u64), (u32, u64)) -> bool {
    |a: (u32, u64), b: (u32, u64)| a.0 != b.0
}

/// Delivering keeps one connection per player: a player who is bound anew is reached
/// by the new connection only.
pub proof fn law_players_have_one_connection(
    sockets: Seq<(u32, u64)>,
    code: Seq<char>,
    pending: Option<u64>,
    now: int,
    all: Seq<OutView>,
)
    requires
        one_connection_each(sockets),
        forall|k: int|
            0 <= k < all.len() ==> ((#[trigger] all[k]) matches OutView::Bound(id) ==> 0 <= id
                <= u32::MAX),
    ensures
        one_connection_each(delivered(sockets, code, pending, now, all).sockets),
    decreases all.len(),
{
    if all.len() > 0 {
        let fewer = all.drop_last();
        assert forall|k: int| 0 <= k < fewer.len() implies ((
        #[trigger] fewer[k]) matches OutView::Bound(id) ==> 0 <= id <= u32::MAX) by {
            assert(fewer[k] == all[k]);
        }
        law_players_have_one_connection(sockets, code, pending, now, fewer);
        let d = delivered(sockets, code, pending, now, fewer);
        assert(all[all.len() - 1] == all.last());
        match all.last() {
            OutView::Bound(id) => {
                lemma_filter_keeps(d.sockets, is_other(id));
                lemma_filter_keeps_pairs(d.sockets, is_other(id), differ_in_player());
                let kept = d.sockets.filter(is_other(id));
                assert forall|j: int| 0 <= j < kept.len() implies (#[trigger] kept[j]).0 != id by {
                    assert(is_other(id)(kept[j]));
                }
            },
            OutView::Unbound(id) => {
                lemma_filter_keeps_pairs(d.sockets, is_other(id), differ_in_player());
            },
            _ => {},
        }
    }
}

/// A request that its lobby refuses is answered to the connection that made it, and
/// to no other, and leaves every lobby as it was.
pub proof fn law_refusals_reach_the_sender(
    server: ServerView,
    i: int,
    now: int,
    conn: u64,
    session: Option<(Seq<char>, int)>,
    msg: ClientMsgView,
    ranges: RangesView,
)
    requires
        0 <= i < server.rooms.len(),
        server.rooms[i].lobby.players.len() > 0,
        msg is Create || msg is Join ==> first(
            server.rooms[i].sockets,
            is_player(server.next_id as int),
        ) is None,
        !(msg is Create || msg is Join || msg is Rejoin) ==> (session matches Some((_, who))
            ==> Delivery::starting(server.rooms[i].sockets).reached_by(who, None) == Some(conn)),
    ensures
        ({
            let event = server.raised(session, msg, ranges);
            let outs = server.rooms[i].lobby.handled(now, server.rng.after(3), event).outs;
            let served = server.passed_on(i, now, conn, session, msg, ranges);
            outs.len() > 0 && is_error(outs[0]) ==> {
                &&& served.server.rooms == server.rooms
                &&& served.session == session
                &&& served.actions.len() == 1
                &&& served.actions[0] matches ActionView::Send {
                    conns,
                    msg: ServerMsgView::Error { .. },
                } && conns == seq![conn]
            }
        }),
{
    let lobby = server.rooms[i].lobby;
    let rng = server.rng.after(3);
    let event = server.raised(session, msg, ranges);
    law_refusals_change_nothing(lobby, now, rng, event);
    let outs = lobby.handled(now, rng, event).outs;
    if outs.len() > 0 && is_error(outs[0]) {
        reveal_with_fuel(delivered, 2);
        assert(outs.drop_last() =~= Seq::empty());
        assert(server.rooms.update(i, server.rooms[i]) =~= server.rooms);
    }
}

/// The lobby of a session exists for as long as the session lasts: whatever a connection
/// in a lobby says, it is afterwards in a lobby that exists, or in none.
pub proof fn law_sessions_name_existing_lobbies(
    server: ServerView,
    now: int,
    conn: u64,
    code: Seq<char>,
    id: int,
    msg: ClientMsgView,
    ranges: RangesView,
    settings: SettingsView,
    tries: nat,
)
    requires
        server.valid(),
        server.find(code) is Some,
    ensures
        ({
            let served = server.handled(
                now,
                conn,
                Some((code, id)),
                msg,
                ranges,
                settings,
                tries,
            );
            served.session matches Some((kept, _)) ==> kept == code && served.server.find(
                kept,
            ) is Some
        }),
{
    let i = server.find(code)->0;
    let room = server.rooms[i];
    let event = EventView::Client {
        from: Some(id),
        msg,
        id: server.next_id as int,
        token: token_text(server.rng),
        ranges,
    };
    let rng = server.rng.after(3);
    let step = room.lobby.apply(now, rng, event);
    let d = delivered(room.sockets, room.lobby.code, Some(conn), now, step.outs);
    lemma_delivered_empty(room.sockets, room.lobby.code, Some(conn), now, step.outs);
    law_empty_is_announced(room.lobby, now, rng, event);
    law_lobbies_keep_their_code(room.lobby, now, rng, event);
    lemma_delivered_unbound(room.sockets, room.lobby.code, Some(conn), now, step.outs);
    let after = server.passed_on(i, now, conn, Some((code, id)), msg, ranges).server;
    if step.lobby.players.len() == 0 {
        // only leaving empties a lobby, and it lets the leaver go
        assert(step.outs[0] == OutView::Unbound(id));
        assert(d.unbound.contains(id));
        assert forall|k: int| 0 <= k < step.outs.len() implies !((
        #[trigger] step.outs[k]) matches OutView::Bound(_)) by {}
        lemma_delivered_bound(room.sockets, room.lobby.code, Some(conn), now, step.outs);
    } else {
        assert(after.rooms[i].lobby.code == code);
        lemma_first_exists(after.rooms, has_code(code), i);
        lemma_delivered_bound(room.sockets, room.lobby.code, Some(conn), now, step.outs);
    }
}

/// A connection that gets into a lobby is in one that exists.
pub proof fn law_new_sessions_name_existing_lobbies(
    server: ServerView,
    now: int,
    conn: u64,
    msg: ClientMsgView,
    ranges: RangesView,
    settings: SettingsView,
    tries: nat,
)
    requires
        server.valid(),
    ensures
        ({
            let served = server.handled(now, conn, None, msg, ranges, settings, tries);
            served.session matches Some((code, _)) ==> served.server.find(code) is Some
        }),
{
    match msg {
        ClientMsgView::Create { .. } => {
            let (free, rng) = server.free_code(server.rng, tries);
            if let Some(code) = free {
                let opened = ServerView {
                    rooms: server.rooms.push(RoomView::opened(code, settings)),
                    rng,
                    ..server
                };
                lemma_entering(opened, server.rooms.len() as int, now, conn, msg, ranges);
            }
        },
        ClientMsgView::Join { code, .. } => {
            if let Some(i) = server.find(code_meant(code)) {
                lemma_entering(server, i, now, conn, msg, ranges);
            }
        },
        ClientMsgView::Rejoin { code, .. } => {
            if let Some(i) = server.find(code_meant(code)) {
                lemma_entering(server, i, now, conn, msg, ranges);
            }
        },
        _ => {},
    }
}

proof fn lemma_entering(
    server: ServerView,
    i: int,
    now: int,
    conn: u64,
    msg: ClientMsgView,
    ranges: RangesView,
)
    requires
        0 <= i < server.rooms.len(),
        msg is Create || msg is Join || msg is Rejoin,
    ensures
        ({
            let served = server.passed_on(i, now, conn, None, msg, ranges);
            served.session matches Some((code, _)) ==> served.server.find(code) is Some
        }),
{
    let room = server.rooms[i];
    let event = EventView::Client {
        from: None,
        msg,
        id: server.next_id as int,
        token: token_text(server.rng),
        ranges,
    };
    let rng = server.rng.after(3);
    let step = room.lobby.apply(now, rng, event);
    lemma_delivered_empty(room.sockets, room.lobby.code, Some(conn), now, step.outs);
    law_empty_is_announced(room.lobby, now, rng, event);
    law_lobbies_keep_their_code(room.lobby, now, rng, event);
    lemma_delivered_bound(room.sockets, room.lobby.code, Some(conn), now, step.outs);
    let after = server.passed_on(i, now, conn, None, msg, ranges).server;
    if step.lobby.players.len() > 0 {
        assert(after.rooms[i].lobby.code == room.lobby.code);
        lemma_first_exists(after.rooms, has_code(room.lobby.code), i);
    } else {
        assert forall|k: int| 0 <= k < step.outs.len() implies !((
        #[trigger] step.outs[k]) matches OutView::Bound(_)) by {}
    }
}

/// Whoever the lobby let go is among those who stopped existing.
proof fn lemma_delivered_unbound(
    sockets: Seq<(u32, u64)>,
    code: Seq<char>,
    pending: Option<u64>,
    now: int,
    all: Seq<OutView>,
)
    ensures
        forall|id: int|
            all.contains(OutView::Unbound(id)) ==> #[trigger] delivered(
                sockets,
                code,
                pending,
                now,
                all,
            ).unbound.contains(id),
    decreases all.len(),
{
    if all.len() > 0 {
        let fewer = all.drop_last();
        lemma_delivered_unbound(sockets, code, pending, now, fewer);
        let before = delivered(sockets, code, pending, now, fewer).unbound;
        let after = delivered(sockets, code, pending, now, all).unbound;
        assert forall|id: int| all.contains(OutView::Unbound(id)) implies #[trigger] after.contains(
            id,
        ) by {
            if all.last() == OutView::Unbound(id) {
                assert(after[after.len() - 1] == id);
            } else {
                let k = choose|k: int| 0 <= k < all.len() && all[k] == OutView::Unbound(id);
                assert(fewer[k] == OutView::Unbound(id));
                assert(before.contains(id));
                let m = choose|m: int| 0 <= m < before.len() && before[m] == id;
                assert(after[m] == id);
            }
        }
    }
}

/// Nobody is bound unless the lobby says so.
proof fn lemma_delivered_bound(
    sockets: Seq<(u32, u64)>,
    code: Seq<char>,
    pending: Option<u64>,
    now: int,
    all: Seq<OutView>,
)
    ensures
        (forall|k: int|
            0 <= k < all.len() ==> !((#[trigger] all[k]) matches OutView::Bound(_)))
            ==> delivered(sockets, code, pending, now, all).bound is None,
    decreases all.len(),
{
    if all.len() > 0 {
        let fewer = all.drop_last();
        lemma_delivered_bound(sockets, code, pending, now, fewer);
        if forall|k: int|
            0 <= k < all.len() ==> !((#[trigger] all[k]) matches OutView::Bound(_)) {
            assert forall|k: int| 0 <= k < fewer.len() implies !((
            #[trigger] fewer[k]) matches OutView::Bound(_)) by {
                assert(fewer[k] == all[k]);
            }
            assert(all[all.len() - 1] == all.last());
        }
    }
}

} // verus!
