//! Client for the icebreaker rendezvous server: room codes and SDP handover.
//!
//! One WebSocket, held open for as long as we are in a lobby. This module knows nothing
//! about the game or about sockets; it says what to send, and who is to be told what of
//! each message that arrives.
//!
//! Holding the connection is also what holds our place: a host hanging up ends its room
//! and a joiner hanging up gives its seat back.

use vstd::prelude::*;

use crate::ordering::{first, lemma_first, lemma_first_exists, lemma_first_none};
use crate::text::{
    begins, decimal, digits_of, hex, hex_range, law_hexadecimals_are_read_back,
    law_prefixes_are_stripped, law_slashes_are_stripped, number, push_decimal, same, starts_with,
    strip_slashes, strip_start, stripped, without_slashes,
};

verus! {

/// The namespace this game occupies on a shared rendezvous server.
pub const APP: &'static str = "waldo";

/// Not a message: the socket opening settles the same way.
pub const OPEN: &'static str = "\0open";

pub const HOSTED: &'static str = "hosted";

pub const JOINED: &'static str = "joined";

pub const SERVERS: &'static str = "ice_servers";

pub const ANSWER: &'static str = "answer";

pub const NO_ROOM: &'static str = "no_room";

/// Ours, not the server's, so both kinds of refusal travel through the same JSON.
pub const TRANSPORT: &'static str = "\0transport";

/// How many replies to keep that nobody has asked for yet.
pub const STASHED: usize = 8;

/// Base URL of the rendezvous server: the one compiled in, or else the origin the page
/// came from, which is what a local static server wants.
pub open spec fn base(compiled: Seq<char>, origin: Option<Seq<char>>) -> Seq<char> {
    if compiled.len() > 0 {
        without_slashes(compiled)
    } else {
        match origin {
            Some(o) => o,
            None => "http://localhost:8001"@,
        }
    }
}

pub fn base_url(compiled: &str, origin: Option<String>) -> (url: String)
    ensures
        url@ == base(
            compiled@,
            match origin {
                Some(o) => Some(o@),
                None => None,
            },
        ),
{
    if compiled.unicode_len() > 0 {
        strip_slashes(compiled)
    } else {
        match origin {
            Some(o) => o,
            None => "http://localhost:8001".to_owned(),
        }
    }
}

/// The address of the socket. The base is an http origin, so the scheme is swapped; one
/// that is a socket url already is left alone.
pub open spec fn socket_address(base: Seq<char>) -> Seq<char> {
    (if begins(base, "https://"@) {
        "wss://"@ + stripped(base, "https://"@)
    } else if begins(base, "http://"@) {
        "ws://"@ + stripped(base, "http://"@)
    } else if begins(base, "wss://"@) {
        "wss://"@ + stripped(base, "wss://"@)
    } else if begins(base, "ws://"@) {
        "ws://"@ + stripped(base, "ws://"@)
    } else {
        "ws://"@ + base
    }) + "/ws?app="@ + APP@
}

pub fn socket_url(base: &str) -> (url: String)
    ensures
        url@ == socket_address(base@),
{
    let (scheme, host) = if starts_with(base, "https://") {
        ("wss://", strip_start(base, "https://"))
    } else if starts_with(base, "http://") {
        ("ws://", strip_start(base, "http://"))
    } else if starts_with(base, "wss://") {
        ("wss://", strip_start(base, "wss://"))
    } else if starts_with(base, "ws://") {
        ("ws://", strip_start(base, "ws://"))
    } else {
        ("ws://", base.to_owned())
    };
    let mut url = scheme.to_owned();
    url.append(host.as_str());
    url.append("/ws?app=");
    url.append(APP);
    url
}

/// One side's half of a connection, as WebRTC describes it.
#[derive(Clone, Debug)]
pub struct Description {
    pub kind: String,
    pub sdp: String,
}

pub struct DescriptionView {
    pub kind: Seq<char>,
    pub sdp: Seq<char>,
}

impl View for Description {
    type V = DescriptionView;

    open spec fn view(&self) -> DescriptionView {
        DescriptionView { kind: self.kind@, sdp: self.sdp@ }
    }
}

#[derive(Clone, Debug)]
pub struct IceServer {
    pub urls: Vec<String>,
    pub username: Option<String>,
    pub credential: Option<String>,
}

#[derive(Debug)]
pub struct Hosted {
    pub code: String,
    pub max_joiners: u32,
    pub ice_servers: Vec<IceServer>,
}

#[derive(Clone, Debug)]
pub enum Error {
    /// The server refused a message, naming one of its reasons.
    Refused { reason: String, message: String },
    /// The connection failed, or a message was not the shape expected.
    Transport(String),
}

pub enum ErrorView {
    Refused { reason: Seq<char>, message: Seq<char> },
    Transport(Seq<char>),
}

impl View for Error {
    type V = ErrorView;

    open spec fn view(&self) -> ErrorView {
        match *self {
            Error::Refused { reason, message } => ErrorView::Refused {
                reason: reason@,
                message: message@,
            },
            Error::Transport(e) => ErrorView::Transport(e@),
        }
    }
}

impl ErrorView {
    pub open spec fn text(self) -> Seq<char> {
        match self {
            ErrorView::Refused { message, .. } => message,
            ErrorView::Transport(e) => e,
        }
    }

    pub open spec fn missing(self) -> bool {
        self matches ErrorView::Refused { reason, .. } && reason == NO_ROOM@
    }

    /// The error that a refusal stands for, or the lack of one that can be read.
    pub open spec fn of(refusal: Option<(Seq<char>, Seq<char>)>) -> ErrorView {
        match refusal {
            Some((reason, message)) => if reason == TRANSPORT@ {
                ErrorView::Transport(message)
            } else {
                ErrorView::Refused { reason, message }
            },
            None => ErrorView::Transport("the lobby service connection failed"@),
        }
    }
}

impl Error {
    /// Whether the room is gone, as opposed to a transient failure. The rendezvous
    /// server answers a wrong app key and an unknown code identically, on purpose.
    pub fn is_missing(&self) -> (r: bool)
        ensures
            r == self@.missing(),
    {
        match self {
            Error::Refused { reason, .. } => same(reason.as_str(), NO_ROOM),
            _ => false,
        }
    }

    /// What a person is shown.
    pub fn text(&self) -> (text: String)
        ensures
            text@ == self@.text(),
    {
        match self {
            Error::Refused { message, .. } => message.clone(),
            Error::Transport(e) => e.clone(),
        }
    }

    /// A parked caller is woken with text only, so a transport failure is dressed as
    /// the JSON refusal the server would have sent.
    pub fn wire(reason: &str, message: &str) -> (text: String)
        ensures
            text@ == refusal_text(quoted(reason@), quoted(message@)),
    {
        write_refusal(quote(reason).as_str(), quote(message).as_str())
    }

    /// The error in what a parked caller was woken with: the reason and message that
    /// were read out of it, if they could be.
    pub fn parse(refusal: Option<(String, String)>) -> (e: Error)
        ensures
            e@ == ErrorView::of(
                match refusal {
                    Some((reason, message)) => Some((reason@, message@)),
                    None => None,
                },
            ),
    {
        match refusal {
            Some((reason, message)) => {
                if same(reason.as_str(), TRANSPORT) {
                    Error::Transport(message)
                } else {
                    Error::Refused { reason, message }
                }
            },
            None => Error::Transport("the lobby service connection failed".to_owned()),
        }
    }
}

/// How a character is written within a JSON string: quotes, backslashes and control
/// characters are escaped, the commonest of these by a letter and the others by number.
pub open spec fn escaped(c: char) -> Seq<char> {
    if c == '"' || c == '\\' {
        seq!['\\', c]
    } else if c == '\u{8}' {
        seq!['\\', 'b']
    } else if c == '\t' {
        seq!['\\', 't']
    } else if c == '\n' {
        seq!['\\', 'n']
    } else if c == '\u{c}' {
        seq!['\\', 'f']
    } else if c == '\r' {
        seq!['\\', 'r']
    } else if c <= '\u{1f}' {
        seq!['\\', 'u'] + hex(c as nat, 4)
    } else {
        seq![c]
    }
}

/// Each character of a text as it is written within a JSON string.
pub open spec fn all_escaped(s: Seq<char>) -> Seq<char>
    decreases s.len(),
{
    if s.len() == 0 {
        Seq::empty()
    } else {
        all_escaped(s.drop_last()) + escaped(s.last())
    }
}

/// A text as a JSON string.
pub open spec fn quoted(s: Seq<char>) -> Seq<char> {
    seq!['"'] + all_escaped(s) + seq!['"']
}

/// Calls `serde_json::to_string` on a text, which writes it as a JSON string: between
/// double quotes, with quotes, backslashes and the characters below a space escaped and
/// all others as they are. Writing a string into memory cannot fail.
#[verifier::external_body]
pub(crate) fn quote(s: &str) -> (r: String)
    ensures
        r@ == quoted(s@),
{
    serde_json::to_string(s).unwrap()
}

/// A refusal as JSON, from its parts as JSON. Keys stand in alphabetical order.
pub open spec fn refusal_text(reason: Seq<char>, message: Seq<char>) -> Seq<char> {
    "{\"message\":"@ + message + ",\"reason\":"@ + reason + "}"@
}

pub fn write_refusal(reason: &str, message: &str) -> (text: String)
    ensures
        text@ == refusal_text(reason@, message@),
{
    let mut text = "{\"message\":".to_owned();
    text.append(message);
    text.append(",\"reason\":");
    text.append(reason);
    text.append("}");
    text
}

/// What a caller is woken with when the connection fails.
pub open spec fn transport_failure(why: Seq<char>) -> Seq<char> {
    refusal_text(quoted(TRANSPORT@), quoted(why))
}

/// A description as JSON, from its parts as JSON.
pub open spec fn description_text(kind: Seq<char>, sdp: Seq<char>) -> Seq<char> {
    "{\"sdp\":"@ + sdp + ",\"type\":"@ + kind + "}"@
}

pub fn write_description(kind: &str, sdp: &str) -> (text: String)
    ensures
        text@ == description_text(kind@, sdp@),
{
    let mut text = "{\"sdp\":".to_owned();
    text.append(sdp);
    text.append(",\"type\":");
    text.append(kind);
    text.append("}");
    text
}

impl DescriptionView {
    /// As JSON.
    pub open spec fn json(self) -> Seq<char> {
        description_text(quoted(self.kind), quoted(self.sdp))
    }
}

impl Description {
    /// As JSON.
    pub fn to_json(&self) -> (text: String)
        ensures
            text@ == self@.json(),
    {
        write_description(quote(self.kind.as_str()).as_str(), quote(self.sdp.as_str()).as_str())
    }
}

/// Asks for a room. The code that comes back is what a player reads out loud.
pub fn host_request() -> (text: String)
    ensures
        text@ == "{\"type\":\"host\"}"@,
{
    "{\"type\":\"host\"}".to_owned()
}

/// Asks for the servers to gather candidates from, which an offer needs.
pub fn ice_request() -> (text: String)
    ensures
        text@ == "{\"type\":\"ice\"}"@,
{
    "{\"type\":\"ice\"}".to_owned()
}

/// Ends the room. Only when the lobby breaks up, not when the match starts: the room
/// has to stay reachable for a dropped player to signal their way back in.
pub fn close_request() -> (text: String)
    ensures
        text@ == "{\"type\":\"close\"}"@,
{
    "{\"type\":\"close\"}".to_owned()
}

/// A request to be let in, from its parts as JSON.
pub open spec fn join_text(code: Seq<char>, offer: Seq<char>) -> Seq<char> {
    "{\"code\":"@ + code + ",\"offer\":"@ + offer + ",\"type\":\"join\"}"@
}

pub fn write_join(code: &str, offer: &str) -> (text: String)
    ensures
        text@ == join_text(code@, offer@),
{
    let mut text = "{\"code\":".to_owned();
    text.append(code);
    text.append(",\"offer\":");
    text.append(offer);
    text.append(",\"type\":\"join\"}");
    text
}

/// Asks the host of `code` to be let in.
pub fn join_request(code: &str, offer: &Description) -> (text: String)
    ensures
        text@ == join_text(quoted(code@), offer@.json()),
{
    write_join(quote(code).as_str(), offer.to_json().as_str())
}

/// An answer for a seat, from the description as JSON.
pub open spec fn answer_text(seat: nat, answer: Seq<char>) -> Seq<char> {
    "{\"answer\":"@ + answer + ",\"seat\":"@ + decimal(seat) + ",\"type\":\"answer\"}"@
}

pub fn write_answer(seat: u32, answer: &str) -> (text: String)
    ensures
        text@ == answer_text(seat as nat, answer@),
{
    let mut text = "{\"answer\":".to_owned();
    text.append(answer);
    text.append(",\"seat\":");
    push_decimal(&mut text, seat as u64);
    text.append(",\"type\":\"answer\"}");
    text
}

/// Answers the offer that came with a seat.
pub fn answer_request(seat: u32, answer: &Description) -> (text: String)
    ensures
        text@ == answer_text(seat as nat, answer@.json()),
{
    write_answer(seat, answer.to_json().as_str())
}

/// Something the connection's owner must do.
pub enum Signal {
    /// Wake the parked caller with this reply.
    Resolve(String),
    /// Wake the parked caller with this refusal.
    Reject(String),
    /// Something nobody was waiting on was refused.
    Report(String),
    /// A joiner offers a connection for this seat.
    Offered(u32, Description),
    /// The connection is lost, for this reason. Nothing arrives after it.
    Lost(String),
}

pub enum SignalView {
    Resolve(Seq<char>),
    Reject(Seq<char>),
    Report(Seq<char>),
    Offered(u32, DescriptionView),
    Lost(Seq<char>),
}

impl View for Signal {
    type V = SignalView;

    open spec fn view(&self) -> SignalView {
        match *self {
            Signal::Resolve(text) => SignalView::Resolve(text@),
            Signal::Reject(wire) => SignalView::Reject(wire@),
            Signal::Report(wire) => SignalView::Report(wire@),
            Signal::Offered(seat, offer) => SignalView::Offered(seat, offer@),
            Signal::Lost(why) => SignalView::Lost(why@),
        }
    }
}

pub open spec fn signals(s: Seq<Signal>) -> Seq<SignalView> {
    s.map_values(|x: Signal| x@)
}

fn no_signals() -> (s: Vec<Signal>)
    ensures
        signals(s@) == Seq::<SignalView>::empty(),
{
    let s: Vec<Signal> = Vec::new();
    assert(signals(s@) =~= Seq::empty());
    s
}

fn one_signal(x: Signal) -> (s: Vec<Signal>)
    ensures
        signals(s@) == seq![x@],
{
    let mut s: Vec<Signal> = Vec::new();
    s.push(x);
    assert(signals(s@) =~= seq![x@]);
    s
}

/// What can be read out of a message: its type, the reason of a closing, and the seat
/// and description of an offer.
pub struct Reading {
    pub kind: Option<String>,
    pub reason: Option<String>,
    pub offer: Option<(u32, Description)>,
}

pub struct ReadingView {
    pub kind: Option<Seq<char>>,
    pub reason: Option<Seq<char>>,
    pub offer: Option<(u32, DescriptionView)>,
}

impl View for Reading {
    type V = ReadingView;

    open spec fn view(&self) -> ReadingView {
        ReadingView {
            kind: match self.kind {
                Some(k) => Some(k@),
                None => None,
            },
            reason: match self.reason {
                Some(r) => Some(r@),
                None => None,
            },
            offer: match self.offer {
                Some((seat, d)) => Some((seat, d@)),
                None => None,
            },
        }
    }
}

/// The state of the connection: what reply a caller waits for, the number of the last
/// wait that began, which replies came before anybody waited for them, and whether it is
/// lost.
pub struct MailboxView {
    pub waiting: Option<Seq<char>>,
    pub wait: u64,
    pub arrived: Seq<(Seq<char>, Seq<char>)>,
    pub lost: bool,
}

/// The connection after something happened, and what its owner must do.
pub struct Sorted {
    pub mailbox: MailboxView,
    pub signals: Seq<SignalView>,
}

pub open spec fn of_kind(kind: Seq<char>) -> spec_fn((Seq<char>, Seq<char>)) -> bool {
    |m: (Seq<char>, Seq<char>)| m.0 == kind
}

impl MailboxView {
    pub open spec fn empty() -> MailboxView {
        MailboxView { waiting: None, wait: 0, arrived: Seq::empty(), lost: false }
    }

    /// No more replies are kept than there is room for.
    pub open spec fn valid(self) -> bool {
        self.arrived.len() <= STASHED
    }

    pub open spec fn idle(self) -> Sorted {
        Sorted { mailbox: self, signals: Seq::empty() }
    }

    pub open spec fn parked(self, wants: Seq<char>) -> MailboxView {
        MailboxView {
            waiting: Some(wants),
            wait: if self.wait == u64::MAX {
                0
            } else {
                (self.wait + 1) as u64
            },
            ..self
        }
    }

    pub open spec fn abandoned(self) -> MailboxView {
        MailboxView { waiting: None, ..self }
    }

    /// A reply that nobody waits for yet is kept, and the oldest makes room for it.
    pub open spec fn stashed(self, kind: Seq<char>, text: Seq<char>) -> MailboxView {
        MailboxView {
            arrived: (if self.arrived.len() >= STASHED {
                self.arrived.remove(0)
            } else {
                self.arrived
            }).push((kind, text)),
            ..self
        }
    }

    /// The oldest kept reply of a kind, taken out.
    pub open spec fn unstashed(self, kind: Seq<char>) -> (MailboxView, Option<Seq<char>>) {
        match first(self.arrived, of_kind(kind)) {
            Some(i) => (
                MailboxView { arrived: self.arrived.remove(i), ..self },
                Some(self.arrived[i].1),
            ),
            None => (self, None),
        }
    }

    /// A reply wakes the caller that waits for its kind, if one does.
    pub open spec fn settled(self, kind: Seq<char>, text: Seq<char>) -> Sorted {
        if self.waiting == Some(kind) {
            Sorted { mailbox: self.abandoned(), signals: seq![SignalView::Resolve(text)] }
        } else {
            self.idle()
        }
    }

    /// A reply wakes the caller that waits for its kind, and is kept otherwise.
    pub open spec fn sorted(self, kind: Seq<char>, text: Seq<char>) -> Sorted {
        if self.waiting == Some(kind) {
            self.settled(kind, text)
        } else {
            self.stashed(kind, text).idle()
        }
    }

    /// A refusal goes to whoever waits, and is reported if nobody does and the connection
    /// is not lost.
    pub open spec fn refused(self, wire: Seq<char>) -> Sorted {
        Sorted {
            mailbox: self.abandoned(),
            signals: if self.waiting is Some {
                seq![SignalView::Reject(wire)]
            } else if self.lost {
                Seq::empty()
            } else {
                seq![SignalView::Report(wire)]
            },
        }
    }

    /// The connection is lost: whoever waits is refused, and the loss is told once.
    pub open spec fn losing(self, why: Seq<char>) -> Sorted {
        Sorted {
            mailbox: MailboxView { waiting: None, lost: true, ..self },
            signals: (if self.waiting is Some {
                seq![SignalView::Reject(transport_failure(why))]
            } else {
                Seq::empty()
            }) + (if self.lost {
                Seq::empty()
            } else {
                seq![SignalView::Lost(why)]
            }),
        }
    }

    /// The deadline of a wait passes: the caller is refused if it is still that one.
    pub open spec fn overdue(self, wait: u64, why: Seq<char>) -> Sorted {
        if self.waiting is Some && self.wait == wait {
            self.refused(transport_failure(why))
        } else {
            self.idle()
        }
    }

    /// A message arrives. Once the connection is lost, no offer is passed on.
    pub open spec fn delivered(self, text: Seq<char>, read: ReadingView) -> Sorted {
        match read.kind {
            None => self.idle(),
            Some(kind) => if kind == "closed"@ {
                self.losing(
                    match read.reason {
                        Some(why) => why,
                        None => "the lobby closed"@,
                    },
                )
            } else if kind == "error"@ {
                self.refused(text)
            } else if kind == "offer"@ {
                match read.offer {
                    Some((seat, offer)) => if self.lost {
                        self.idle()
                    } else {
                        Sorted {
                            mailbox: self,
                            signals: seq![SignalView::Offered(seat, offer)],
                        }
                    },
                    None => self.idle(),
                }
            } else {
                self.sorted(kind, text)
            },
        }
    }
}

/// What arrives over the connection, and who waits for it. One caller at a time is
/// enough: a peer only waits for the next step of its own sequence.
pub struct Rendezvous {
    waiting: Option<String>,
    /// Tells one wait from the next, so that a deadline fails no other than its own.
    wait: u64,
    /// Replies that arrived before anybody parked on them.
    arrived: Vec<(String, String)>,
    lost: bool,
}

spec fn messages(s: Seq<(String, String)>) -> Seq<(Seq<char>, Seq<char>)> {
    s.map_values(|m: (String, String)| (m.0@, m.1@))
}

impl View for Rendezvous {
    type V = MailboxView;

    closed spec fn view(&self) -> MailboxView {
        MailboxView {
            waiting: match self.waiting {
                Some(w) => Some(w@),
                None => None,
            },
            wait: self.wait,
            arrived: messages(self.arrived@),
            lost: self.lost,
        }
    }
}

impl Rendezvous {
    pub fn new() -> (rv: Self)
        ensures
            rv@ == MailboxView::empty(),
            rv@.valid(),
    {
        let rv = Rendezvous { waiting: None, wait: 0, arrived: Vec::new(), lost: false };
        assert(rv@.arrived =~= Seq::empty());
        rv
    }

    /// A caller starts waiting for a kind of reply, in place of whoever did before. The
    /// answer is the number of this wait, for a deadline.
    pub fn park(&mut self, wants: &str) -> (wait: u64)
        ensures
            final(self)@ == old(self)@.parked(wants@),
            wait == final(self)@.wait,
    {
        self.waiting = Some(wants.to_owned());
        self.wait = self.wait.wrapping_add(1);
        self.wait
    }

    /// The caller that waits gives up.
    pub fn abandon(&mut self)
        ensures
            final(self)@ == old(self)@.abandoned(),
    {
        self.waiting = None;
    }

    fn awaits(&self, kind: &str) -> (r: bool)
        ensures
            r == (self@.waiting == Some(kind@)),
    {
        match &self.waiting {
            Some(w) => same(w.as_str(), kind),
            None => false,
        }
    }

    /// Wakes the caller that waits for this kind of reply, if one does.
    pub fn settle(&mut self, kind: &str, text: &str) -> (todo: Vec<Signal>)
        ensures
            ({
                let sorted = old(self)@.settled(kind@, text@);
                &&& final(self)@ == sorted.mailbox
                &&& signals(todo@) == sorted.signals
            }),
    {
        if self.awaits(kind) {
            self.waiting = None;
            one_signal(Signal::Resolve(text.to_owned()))
        } else {
            no_signals()
        }
    }

    /// The server sends the host's answer as soon as the host does, which can in
    /// principle beat the `joined` a joiner is still waiting for, and a dropped answer
    /// is a connection that silently never happens.
    fn stash(&mut self, kind: &str, text: &str)
        ensures
            final(self)@ == old(self)@.stashed(kind@, text@),
    {
        let ghost was = self.arrived@;
        if self.arrived.len() >= STASHED {
            self.arrived.remove(0);
            assert(messages(self.arrived@) =~= messages(was).remove(0));
        }
        let ghost mid = self.arrived@;
        self.arrived.push((kind.to_owned(), text.to_owned()));
        assert(messages(self.arrived@) =~= messages(mid).push((kind@, text@)));
    }

    /// Takes out the oldest kept reply of a kind.
    pub fn unstash(&mut self, kind: &str) -> (text: Option<String>)
        ensures
            ({
                let (mailbox, kept) = old(self)@.unstashed(kind@);
                &&& final(self)@ == mailbox
                &&& match text {
                    Some(t) => kept == Some(t@),
                    None => kept is None,
                }
            }),
    {
        let ghost was = self@.arrived;
        let mut i: usize = 0;
        while i < self.arrived.len() && !same(self.arrived[i].0.as_str(), kind)
            invariant
                i <= self.arrived.len(),
                was == messages(self.arrived@),
                forall|j: int| 0 <= j < i ==> (#[trigger] was[j]).0 != kind@,
            decreases self.arrived.len() - i,
        {
            assert(was[i as int].0 == self.arrived@[i as int].0@);
            i += 1;
        }
        if i < self.arrived.len() {
            assert(was[i as int].0 == self.arrived@[i as int].0@);
            proof {
                lemma_first(was, of_kind(kind@), i as int);
            }
            let (_, text) = self.arrived.remove(i);
            assert(messages(self.arrived@) =~= was.remove(i as int));
            Some(text)
        } else {
            proof {
                lemma_first_none(was, of_kind(kind@));
            }
            None
        }
    }

    /// Refuse whatever is parked, or report it if nothing is, unless the connection is
    /// lost.
    pub fn refuse(&mut self, wire: &str) -> (todo: Vec<Signal>)
        ensures
            ({
                let sorted = old(self)@.refused(wire@);
                &&& final(self)@ == sorted.mailbox
                &&& signals(todo@) == sorted.signals
            }),
    {
        let waited = self.waiting.is_some();
        self.waiting = None;
        if waited {
            one_signal(Signal::Reject(wire.to_owned()))
        } else if self.lost {
            no_signals()
        } else {
            one_signal(Signal::Report(wire.to_owned()))
        }
    }

    /// The connection is gone.
    pub fn lose(&mut self, why: &str) -> (todo: Vec<Signal>)
        ensures
            ({
                let sorted = old(self)@.losing(why@);
                &&& final(self)@ == sorted.mailbox
                &&& signals(todo@) == sorted.signals
            }),
    {
        let ghost was = self@;
        let mut todo = if self.waiting.is_some() {
            one_signal(Signal::Reject(Error::wire(TRANSPORT, why)))
        } else {
            no_signals()
        };
        self.waiting = None;
        if !self.lost {
            self.lost = true;
            todo.push(Signal::Lost(why.to_owned()));
        }
        assert(signals(todo@) =~= was.losing(why@).signals);
        todo
    }

    /// Fails a parked reply that has not arrived in time. Harmless if it has, or if
    /// something else is parked.
    pub fn expire(&mut self, wait: u64, why: &str) -> (todo: Vec<Signal>)
        ensures
            ({
                let sorted = old(self)@.overdue(wait, why@);
                &&& final(self)@ == sorted.mailbox
                &&& signals(todo@) == sorted.signals
            }),
    {
        if self.waiting.is_some() && self.wait == wait {
            let wire = Error::wire(TRANSPORT, why);
            self.refuse(wire.as_str())
        } else {
            no_signals()
        }
    }

    /// Takes in a message, with what could be read out of it.
    pub fn deliver(&mut self, text: &str, read: Reading) -> (todo: Vec<Signal>)
        ensures
            ({
                let sorted = old(self)@.delivered(text@, read@);
                &&& final(self)@ == sorted.mailbox
                &&& signals(todo@) == sorted.signals
            }),
    {
        let kind = match read.kind {
            Some(kind) => kind,
            None => {
                return no_signals();  // not one of ours
            },
        };
        if same(kind.as_str(), "closed") {
            let why = match read.reason {
                Some(why) => why,
                None => "the lobby closed".to_owned(),
            };
            self.lose(why.as_str())
        } else if same(kind.as_str(), "error") {
            self.refuse(text)
        } else if same(kind.as_str(), "offer") {
            match read.offer {
                Some((seat, offer)) => {
                    if self.lost {
                        no_signals()
                    } else {
                        one_signal(Signal::Offered(seat, offer))
                    }
                },
                None => no_signals(),
            }
        } else if self.awaits(kind.as_str()) {
            self.settle(kind.as_str(), text)
        } else {
            self.stash(kind.as_str(), text);
            no_signals()
        }
    }
}

/// However much arrives unasked, only so many replies are kept.
pub proof fn law_few_replies_are_kept(
    mailbox: MailboxView,
    text: Seq<char>,
    read: ReadingView,
    kind: Seq<char>,
    wait: u64,
)
    requires
        mailbox.valid(),
    ensures
        mailbox.delivered(text, read).mailbox.valid(),
        mailbox.sorted(kind, text).mailbox.valid(),
        mailbox.unstashed(kind).0.valid(),
        mailbox.refused(text).mailbox.valid(),
        mailbox.losing(text).mailbox.valid(),
        mailbox.overdue(wait, text).mailbox.valid(),
{
    if let Some(i) = first(mailbox.arrived, of_kind(kind)) {
        assert(mailbox.arrived.remove(i).len() == mailbox.arrived.len() - 1);
    }
}

/// A reply that comes before anybody waits for it is there for the first who asks.
pub proof fn law_early_replies_are_kept(mailbox: MailboxView, kind: Seq<char>, text: Seq<char>)
    requires
        mailbox.valid(),
        mailbox.waiting != Some(kind),
        first(mailbox.arrived, of_kind(kind)) is None,
    ensures
        mailbox.sorted(kind, text).signals.len() == 0,
        mailbox.sorted(kind, text).mailbox.unstashed(kind).1 == Some(text),
{
    let after = mailbox.sorted(kind, text).mailbox.arrived;
    let last = after.len() - 1;
    assert forall|j: int| 0 <= j < last implies !of_kind(kind)(#[trigger] after[j]) by {
        let k = if mailbox.arrived.len() >= STASHED {
            j + 1
        } else {
            j
        };
        assert(after[j] == mailbox.arrived[k]);
        if of_kind(kind)(mailbox.arrived[k]) {
            lemma_first_exists(mailbox.arrived, of_kind(kind), k);
        }
    }
    lemma_first(after, of_kind(kind), last);
}

/// A caller is woken exactly once: by its reply, a refusal, a loss or its deadline,
/// after which nobody waits.
pub proof fn law_callers_are_woken_once(
    mailbox: MailboxView,
    wants: Seq<char>,
    text: Seq<char>,
    why: Seq<char>,
)
    requires
        mailbox.waiting == Some(wants),
    ensures
        mailbox.sorted(wants, text) == (Sorted {
            mailbox: mailbox.abandoned(),
            signals: seq![SignalView::Resolve(text)],
        }),
        mailbox.refused(text) == (Sorted {
            mailbox: mailbox.abandoned(),
            signals: seq![SignalView::Reject(text)],
        }),
        mailbox.overdue(mailbox.wait, why) == (Sorted {
            mailbox: mailbox.abandoned(),
            signals: seq![SignalView::Reject(transport_failure(why))],
        }),
        mailbox.losing(why).mailbox.waiting is None,
        mailbox.losing(why).signals.len() > 0,
        mailbox.losing(why).signals[0] == SignalView::Reject(transport_failure(why)),
{
}

/// A deadline is harmless once its reply has arrived, or something else is parked, be it
/// for a reply of the same kind.
pub proof fn law_late_deadlines_are_harmless(
    mailbox: MailboxView,
    wants: Seq<char>,
    text: Seq<char>,
    later: Seq<char>,
    why: Seq<char>,
)
    requires
        mailbox.waiting == Some(wants),
    ensures
        ({
            let answered = mailbox.sorted(wants, text).mailbox;
            let again = answered.parked(later);
            let instead = mailbox.parked(later);
            &&& answered.overdue(mailbox.wait, why) == answered.idle()
            &&& again.overdue(mailbox.wait, why) == again.idle()
            &&& instead.overdue(mailbox.wait, why) == instead.idle()
        }),
{
}

/// Nothing arrives after a loss: no offer is passed on, no refusal is reported and no
/// other loss is told, and a connection that is lost stays so.
pub proof fn law_nothing_arrives_after_a_loss(
    mailbox: MailboxView,
    text: Seq<char>,
    read: ReadingView,
    kind: Seq<char>,
    wait: u64,
)
    requires
        mailbox.lost,
    ensures
        is_quiet(mailbox.delivered(text, read)),
        is_quiet(mailbox.refused(text)),
        is_quiet(mailbox.losing(text)),
        is_quiet(mailbox.overdue(wait, text)),
        is_quiet(mailbox.settled(kind, text)),
{
}

/// Whether a lost connection did nothing but wake a caller.
pub open spec fn is_quiet(sorted: Sorted) -> bool {
    &&& sorted.mailbox.lost
    &&& forall|k: int|
        0 <= k < sorted.signals.len() ==> ((#[trigger] sorted.signals[k]) is Resolve
            || sorted.signals[k] is Reject)
}

/// The loss of the connection is told once, however often it is noticed.
pub proof fn law_loss_is_told_once(mailbox: MailboxView, why: Seq<char>, again: Seq<char>)
    ensures
        mailbox.losing(why).mailbox.losing(again).signals == Seq::<SignalView>::empty(),
        mailbox.losing(why).mailbox.losing(again).mailbox == mailbox.losing(why).mailbox,
{
    assert(mailbox.losing(why).mailbox.losing(again).signals =~= Seq::empty());
}

/// A reply that somebody waits for wakes them with its text, and nothing else changes. Any
/// other is kept behind those that came before it, and the oldest of eight makes room.
pub proof fn law_replies_are_sorted(
    mailbox: MailboxView,
    kind: Seq<char>,
    text: Seq<char>,
    read: ReadingView,
)
    requires
        mailbox.valid(),
        read.kind == Some(kind),
        kind != "closed"@,
        kind != "error"@,
        kind != "offer"@,
    ensures
        ({
            let after = mailbox.delivered(text, read);
            if mailbox.waiting == Some(kind) {
                &&& after.signals == seq![SignalView::Resolve(text)]
                &&& after.mailbox == (MailboxView { waiting: None, ..mailbox })
            } else {
                &&& after.signals.len() == 0
                &&& after.mailbox == (MailboxView { arrived: after.mailbox.arrived, ..mailbox })
                &&& mailbox.arrived.len() < 8 ==> after.mailbox.arrived == mailbox.arrived + seq![
                    (kind, text),
                ]
                &&& mailbox.arrived.len() == 8 ==> after.mailbox.arrived == mailbox.arrived.skip(1)
                    + seq![(kind, text)]
            }
        }),
{
    let after = mailbox.delivered(text, read);
    if mailbox.waiting != Some(kind) {
        if mailbox.arrived.len() < 8 {
            assert(after.mailbox.arrived =~= mailbox.arrived + seq![(kind, text)]);
        } else {
            assert(after.mailbox.arrived =~= mailbox.arrived.skip(1) + seq![(kind, text)]);
        }
    }
}

/// Of the replies kept, the oldest of the kind asked for is handed out, once. The others
/// stay as they are.
pub proof fn law_oldest_replies_come_first(mailbox: MailboxView, kind: Seq<char>, i: int)
    ensures
        ({
            let (after, text) = mailbox.unstashed(kind);
            let kept = mailbox.arrived;
            &&& 0 <= i < kept.len() && kept[i].0 == kind && (forall|j: int|
                0 <= j < i ==> (#[trigger] kept[j]).0 != kind) ==> text == Some(kept[i].1) && after
                == (MailboxView { arrived: kept.take(i) + kept.skip(i + 1), ..mailbox })
            &&& (forall|j: int| 0 <= j < kept.len() ==> (#[trigger] kept[j]).0 != kind) ==> text
                is None && after == mailbox
        }),
{
    let kept = mailbox.arrived;
    if 0 <= i < kept.len() && kept[i].0 == kind && (forall|j: int|
        0 <= j < i ==> (#[trigger] kept[j]).0 != kind) {
        lemma_first(kept, of_kind(kind), i);
        assert(kept.remove(i) =~= kept.take(i) + kept.skip(i + 1));
    }
    if forall|j: int| 0 <= j < kept.len() ==> (#[trigger] kept[j]).0 != kind {
        lemma_first_none(kept, of_kind(kind));
    }
}

/// The refusal that a connection lost for this reason stands for.
pub open spec fn lost_for(why: Seq<char>) -> Seq<char> {
    "{\"message\":"@ + quoted(why) + ",\"reason\":"@ + quoted("\0transport"@) + "}"@
}

/// Parking waits for what is wanted and forgets nothing that is kept, and no deadline of an
/// earlier wait is its own. Losing the connection refuses whoever waits, then tells of the
/// loss if it is the first, and forgets nothing that is kept. Opening a wait and giving it up
/// again leaves nobody waiting.
pub proof fn law_waits_end(mailbox: MailboxView, wants: Seq<char>, why: Seq<char>)
    ensures
        ({
            let after = mailbox.parked(wants);
            &&& after.waiting == Some(wants)
            &&& after.arrived == mailbox.arrived
            &&& after.lost == mailbox.lost
            &&& mailbox.wait < 0xffff_ffff_ffff_ffff ==> after.wait == mailbox.wait + 1
            &&& mailbox.wait == 0xffff_ffff_ffff_ffff ==> after.wait == 0
        }),
        mailbox.abandoned() == (MailboxView { waiting: None, ..mailbox }),
        ({
            let after = mailbox.losing(why);
            &&& after.mailbox == (MailboxView { waiting: None, lost: true, ..mailbox })
            &&& mailbox.waiting is Some && !mailbox.lost ==> after.signals == seq![
                SignalView::Reject(lost_for(why)),
                SignalView::Lost(why),
            ]
            &&& mailbox.waiting is Some && mailbox.lost ==> after.signals == seq![
                SignalView::Reject(lost_for(why)),
            ]
            &&& mailbox.waiting is None && !mailbox.lost ==> after.signals == seq![
                SignalView::Lost(why),
            ]
            &&& mailbox.waiting is None && mailbox.lost ==> after.signals.len() == 0
        }),
{
    let after = mailbox.losing(why);
    assert(transport_failure(why) == lost_for(why));
    assert(mailbox.waiting is Some && !mailbox.lost ==> after.signals =~= seq![
        SignalView::Reject(lost_for(why)),
        SignalView::Lost(why),
    ]);
    assert(mailbox.waiting is Some && mailbox.lost ==> after.signals =~= seq![
        SignalView::Reject(lost_for(why)),
    ]);
    assert(mailbox.waiting is None && !mailbox.lost ==> after.signals =~= seq![
        SignalView::Lost(why),
    ]);
}

/// A deadline refuses the wait it was set for while somebody is still in it, and does nothing
/// otherwise.
pub proof fn law_deadlines_end_their_own_wait(mailbox: MailboxView, wait: u64, why: Seq<char>)
    ensures
        ({
            let after = mailbox.overdue(wait, why);
            if mailbox.waiting is Some && mailbox.wait == wait {
                &&& after.mailbox == (MailboxView { waiting: None, ..mailbox })
                &&& after.signals == seq![SignalView::Reject(lost_for(why))]
            } else {
                after.mailbox == mailbox && after.signals.len() == 0
            }
        }),
{
    assert(transport_failure(why) == lost_for(why));
}

/// A settled wait is one for this very thing; anybody waiting for something else goes on
/// waiting.
pub proof fn law_waits_are_settled_by_their_own(
    mailbox: MailboxView,
    kind: Seq<char>,
    text: Seq<char>,
)
    ensures
        ({
            let after = mailbox.settled(kind, text);
            if mailbox.waiting == Some(kind) {
                &&& after.mailbox == (MailboxView { waiting: None, ..mailbox })
                &&& after.signals == seq![SignalView::Resolve(text)]
            } else {
                after.mailbox == mailbox && after.signals.len() == 0
            }
        }),
{
}

/// A refusal wakes whoever waits, and is reported if nobody does, unless the connection is
/// lost.
pub proof fn law_refusals_are_heard(mailbox: MailboxView, text: Seq<char>, read: ReadingView)
    requires
        read.kind == Some("error"@),
    ensures
        ({
            let after = mailbox.delivered(text, read);
            &&& after.mailbox == (MailboxView { waiting: None, ..mailbox })
            &&& mailbox.waiting is Some ==> after.signals == seq![SignalView::Reject(text)]
            &&& mailbox.waiting is None && !mailbox.lost ==> after.signals == seq![
                SignalView::Report(text),
            ]
            &&& mailbox.waiting is None && mailbox.lost ==> after.signals.len() == 0
        }),
{
    reveal_strlit("closed");
    reveal_strlit("error");
    assert("closed"@.len() != "error"@.len());
}

/// The server closing the room loses the connection, for the reason it gives. An offer is
/// handed on as it came as long as the connection stands. What makes no sense is ignored.
pub proof fn law_the_rest_is_handed_on(mailbox: MailboxView, text: Seq<char>, read: ReadingView)
    ensures
        read.kind == Some("closed"@) ==> mailbox.delivered(text, read) == mailbox.losing(
            if read.reason is Some {
                read.reason->0
            } else {
                "the lobby closed"@
            },
        ),
        read.kind is None || read.kind == Some("offer"@) ==> mailbox.delivered(text, read).mailbox
            == mailbox,
        read.kind is None ==> mailbox.delivered(text, read).signals.len() == 0,
        read.kind == Some("offer"@) ==> ({
            let after = mailbox.delivered(text, read);
            &&& read.offer is None || mailbox.lost ==> after.signals.len() == 0
            &&& read.offer is Some && !mailbox.lost ==> after.signals == seq![
                SignalView::Offered((read.offer->0).0, (read.offer->0).1),
            ]
        }),
{
    reveal_strlit("closed");
    reveal_strlit("error");
    reveal_strlit("offer");
    assert("closed"@.len() == 6 && "offer"@.len() == 5);
    assert("error"@[0] != "offer"@[0]);
}

/// What a quoted text stands for: a backslash gives the next character another meaning, and
/// four hexadecimal digits after `u` are a character's number.
pub open spec fn unescaped(s: Seq<char>) -> Seq<char>
    decreases s.len(),
{
    if s.len() == 0 {
        s
    } else if s[0] != '\\' {
        seq![s[0]] + unescaped(s.skip(1))
    } else if s.len() == 1 || s[1] == 'u' && s.len() < 6 {
        Seq::empty()
    } else if s[1] == 'u' {
        seq![number(digits_of(s.subrange(2, 6)), 16) as char] + unescaped(s.skip(6))
    } else {
        seq![
            if s[1] == 'b' {
                '\u{8}'
            } else if s[1] == 't' {
                '\u{9}'
            } else if s[1] == 'n' {
                '\u{a}'
            } else if s[1] == 'f' {
                '\u{c}'
            } else if s[1] == 'r' {
                '\u{d}'
            } else {
                s[1]
            },
        ] + unescaped(s.skip(2))
    }
}

/// A quoted text stands for the text that was quoted, between quotes, and holds no control
/// character.
pub proof fn law_quoted_texts_are_read_back(s: Seq<char>)
    ensures
        quoted(s).len() >= 2,
        quoted(s).first() == '"',
        quoted(s).last() == '"',
        unescaped(quoted(s).subrange(1, quoted(s).len() - 1)) == s,
        forall|i: int| 0 <= i < quoted(s).len() ==> '\u{20}' <= #[trigger] quoted(s)[i],
{
    let inner = all_escaped(s);
    lemma_escaped_is_printable(s);
    assert(quoted(s).subrange(1, quoted(s).len() - 1) =~= inner);
    lemma_unescaped(s);
    assert forall|i: int| 0 <= i < quoted(s).len() implies '\u{20}' <= #[trigger] quoted(s)[i] by {
        if 0 < i < quoted(s).len() - 1 {
            assert(quoted(s)[i] == inner[i - 1]);
        }
    }
}

proof fn lemma_control_in_hex(c: char)
    requires
        c <= '\u{1f}',
    ensures
        hex(c as nat, 4).len() == 4,
        forall|i: int| 0 <= i < 4 ==> '\u{20}' <= #[trigger] hex(c as nat, 4)[i],
        number(digits_of(hex(c as nat, 4)), 16) as char == c,
{
    reveal_with_fuel(hex_range, 5);
    assert(hex_range(4) == 65536);
    assert(c as nat == c as u32);
    law_hexadecimals_are_read_back(c as nat, 4);
}

proof fn lemma_escaped_is_printable(s: Seq<char>)
    ensures
        forall|i: int| 0 <= i < all_escaped(s).len() ==> '\u{20}' <= #[trigger] all_escaped(s)[i],
    decreases s.len(),
{
    if s.len() > 0 {
        lemma_escaped_is_printable(s.drop_last());
        let c = s.last();
        if c <= '\u{1f}' {
            lemma_control_in_hex(c);
        }
        let e = escaped(c);
        assert forall|i: int| 0 <= i < e.len() implies '\u{20}' <= #[trigger] e[i] by {
            if c <= '\u{1f}' && i >= 2 {
                assert(e[i] == hex(c as nat, 4)[i - 2]);
            }
        }
        let before = all_escaped(s.drop_last());
        assert forall|i: int| 0 <= i < all_escaped(s).len() implies '\u{20}'
            <= #[trigger] all_escaped(s)[i] by {
            if i < before.len() {
                assert(all_escaped(s)[i] == before[i]);
            } else {
                assert(all_escaped(s)[i] == e[i - before.len()]);
            }
        }
    }
}

proof fn lemma_escaped_front(s: Seq<char>)
    requires
        s.len() > 0,
    ensures
        all_escaped(s) == escaped(s[0]) + all_escaped(s.skip(1)),
    decreases s.len(),
{
    let rest = s.skip(1);
    if s.len() == 1 {
        assert(s.drop_last() =~= Seq::empty());
        assert(rest =~= Seq::empty());
        assert(all_escaped(s.drop_last()) =~= Seq::empty());
        assert(all_escaped(s) =~= escaped(s[0]) + all_escaped(rest));
    } else {
        lemma_escaped_front(s.drop_last());
        assert(s.drop_last().skip(1) =~= rest.drop_last());
        assert(all_escaped(s) =~= escaped(s[0]) + all_escaped(rest));
    }
}

proof fn lemma_unescaped(s: Seq<char>)
    ensures
        unescaped(all_escaped(s)) == s,
    decreases s.len(),
{
    if s.len() > 0 {
        let c = s[0];
        let rest = s.skip(1);
        let tail = all_escaped(rest);
        lemma_unescaped(rest);
        lemma_escaped_front(s);
        let all = escaped(c) + tail;
        assert(s =~= seq![c] + rest);
        if escaped(c).len() == 1 {
            assert(all.skip(1) =~= tail);
        } else if escaped(c).len() == 2 {
            assert(all.skip(2) =~= tail);
        } else {
            lemma_control_in_hex(c);
            assert(all.subrange(2, 6) =~= hex(c as nat, 4));
            assert(all.skip(6) =~= tail);
        }
    }
}

/// The room is gone where the server says so and at no other failure. A refusal speaks in
/// the server's words, and a connection that failed says how.
pub proof fn law_errors_say_what_happened(reason: Seq<char>, message: Seq<char>)
    ensures
        (ErrorView::Refused { reason, message }).missing() <==> reason == "no_room"@,
        !ErrorView::Transport(message).missing(),
        (ErrorView::Refused { reason, message }).text() == message,
        ErrorView::Transport(message).text() == message,
        reason != "\0transport"@ ==> ErrorView::of(Some((reason, message))) == (
        ErrorView::Refused { reason, message }),
        reason == "\0transport"@ ==> ErrorView::of(Some((reason, message)))
            == ErrorView::Transport(message),
        ErrorView::of(None) == ErrorView::Transport("the lobby service connection failed"@),
{
}

/// The rendezvous server is the one compiled in, less the slashes after it, or where the page
/// came from.
pub proof fn law_pages_find_their_server(compiled: Seq<char>, origin: Seq<char>)
    ensures
        compiled.len() > 0 ==> base(compiled, Some(origin)) == base(compiled, None),
        compiled.len() > 0 && compiled.last() != '/' ==> base(compiled, Some(origin)) == compiled,
        compiled.len() > 0 ==> base(compiled.push('/'), None) == base(compiled, None),
        base(Seq::empty(), Some(origin)) == origin,
        base(Seq::empty(), None) == "http://localhost:8001"@,
{
    law_slashes_are_stripped(compiled);
}

/// A secure page has a secure socket, and any other an open one, at the same host.
pub proof fn law_sockets_follow_pages(host: Seq<char>)
    requires
        !begins(host, "https://"@),
        !begins(host, "http://"@),
        !begins(host, "wss://"@),
        !begins(host, "ws://"@),
    ensures
        socket_address("https://"@ + host) == "wss://"@ + host + "/ws?app=waldo"@,
        socket_address("wss://"@ + host) == "wss://"@ + host + "/ws?app=waldo"@,
        socket_address("http://"@ + host) == "ws://"@ + host + "/ws?app=waldo"@,
        socket_address("ws://"@ + host) == "ws://"@ + host + "/ws?app=waldo"@,
        socket_address(host) == "ws://"@ + host + "/ws?app=waldo"@,
{
    reveal_strlit("https://");
    reveal_strlit("http://");
    reveal_strlit("wss://");
    reveal_strlit("ws://");
    reveal_strlit("/ws?app=");
    reveal_strlit("waldo");
    reveal_strlit("/ws?app=waldo");
    assert("/ws?app="@ + "waldo"@ =~= "/ws?app=waldo"@);
    let https = "https://"@ + host;
    let wss = "wss://"@ + host;
    let http = "http://"@ + host;
    let ws = "ws://"@ + host;
    law_prefixes_are_stripped("https://"@, host);
    law_prefixes_are_stripped("wss://"@, host);
    law_prefixes_are_stripped("http://"@, host);
    law_prefixes_are_stripped("ws://"@, host);
    assert(https.take(8) =~= "https://"@);
    assert(http.take(7) =~= "http://"@);
    assert(wss.take(6) =~= "wss://"@);
    assert(ws.take(5) =~= "ws://"@);
    assert(http[4] == "http://"@[4] && ws[2] == "ws://"@[2]);
    assert(wss[0] == "wss://"@[0] && ws[0] == "ws://"@[0]);
    assert(begins(http, "https://"@) ==> http.take(8)[4] == "https://"@[4]);
    assert(begins(wss, "https://"@) ==> wss.take(8)[0] == "https://"@[0]);
    assert(begins(wss, "http://"@) ==> wss.take(7)[0] == "http://"@[0]);
    assert(begins(ws, "https://"@) ==> ws.take(8)[0] == "https://"@[0]);
    assert(begins(ws, "http://"@) ==> ws.take(7)[0] == "http://"@[0]);
    assert(begins(ws, "wss://"@) ==> ws.take(6)[2] == "wss://"@[2]);
    let end = "/ws?app=waldo"@;
    assert("wss://"@ + host + "/ws?app="@ + "waldo"@ =~= "wss://"@ + host + end);
    assert("ws://"@ + host + "/ws?app="@ + "waldo"@ =~= "ws://"@ + host + end);
}

/// What is sent to the server is JSON: each part stands under its name.
pub proof fn law_requests_name_their_parts(
    code: Seq<char>,
    seat: nat,
    d: DescriptionView,
    why: Seq<char>,
)
    ensures
        d.json() == "{\"sdp\":"@ + quoted(d.sdp) + ",\"type\":"@ + quoted(d.kind) + "}"@,
        join_text(quoted(code), d.json()) == "{\"code\":"@ + quoted(code) + ",\"offer\":"@
            + d.json() + ",\"type\":\"join\"}"@,
        answer_text(seat, d.json()) == "{\"answer\":"@ + d.json() + ",\"seat\":"@ + decimal(seat)
            + ",\"type\":\"answer\"}"@,
        transport_failure(why) == lost_for(why),
        refusal_text(quoted(code), quoted(why)) == "{\"message\":"@ + quoted(why) + ",\"reason\":"@
            + quoted(code) + "}"@,
{
}

} // verus!
