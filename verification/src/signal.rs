//! Client for the icebreaker signalling server: room codes and SDP handover.
//!
//! All JSON over HTTP, no WebSocket. This module knows nothing about the game or about
//! fetching; it says what to request, and what a response means.

use vstd::prelude::*;

use crate::rendezvous::{
    base, base_url as base_of, description_text, quote, quoted, write_description,
};
use crate::text::{chars_of, decimal, push_decimal};

verus! {

/// The namespace this game occupies on a shared signalling server.
pub const APP: &'static str = "waldo";

/// Base URL of the signalling server: the one compiled in, or else the origin the page
/// came from.
pub fn base_url(compiled: &str, origin: Option<String>) -> (url: String)
    ensures
        url@ == base(
            compiled@,
            match origin {
                Some(o) => Some(o@),
                None => None,
            },
        ),
{
    base_of(compiled, origin)
}

/// One side's half of a connection, as WebRTC describes it.
#[derive(Clone, Debug)]
pub struct Description {
    pub kind: String,
    pub sdp: String,
}

#[derive(Debug)]
pub struct IceServer {
    pub urls: Vec<String>,
    pub username: Option<String>,
    pub credential: Option<String>,
}

#[derive(Debug)]
pub struct Hosted {
    pub code: String,
    pub max_joiners: u32,
    pub ice_servers: Vec<IceServer>,
}

#[derive(Debug)]
pub struct Joined {
    pub seat: u32,
    pub ice_servers: Vec<IceServer>,
}

#[derive(Debug)]
pub struct Offer {
    pub seat: u32,
    pub offer: Description,
}

#[derive(Debug)]
pub enum Error {
    /// The server answered, with this status and message.
    Refused { status: u16, message: String },
    /// The request never completed, or the answer was not the shape expected.
    Transport(String),
}

pub enum ErrorView {
    Refused { status: u16, message: Seq<char> },
    Transport(Seq<char>),
}

impl View for Error {
    type V = ErrorView;

    open spec fn view(&self) -> ErrorView {
        match *self {
            Error::Refused { status, message } => ErrorView::Refused { status, message: message@ },
            Error::Transport(e) => ErrorView::Transport(e@),
        }
    }
}

impl ErrorView {
    /// Whether the room is gone.
    pub open spec fn missing(self) -> bool {
        self matches ErrorView::Refused { status, .. } && status == 404
    }

    /// What a person is shown.
    pub open spec fn words(self) -> Seq<char> {
        match self {
            ErrorView::Refused { message, .. } => message,
            ErrorView::Transport(e) => e,
        }
    }
}

impl Error {
    /// Whether the room is gone, as opposed to a transient failure. The signalling
    /// server answers a wrong app key and an unknown code identically, on purpose.
    pub fn is_missing(&self) -> (r: bool)
        ensures
            r == self@.missing(),
            r == (self@ matches ErrorView::Refused { status, .. } && status == 404),
    {
        match self {
            Error::Refused { status, .. } => *status == 404,
            _ => false,
        }
    }

    /// What a person is shown.
    pub fn text(&self) -> (text: String)
        ensures
            text@ == self@.words(),
            text@ == match self@ {
                ErrorView::Refused { message, .. } => message,
                ErrorView::Transport(e) => e,
            },
    {
        match self {
            Error::Refused { message, .. } => message.clone(),
            Error::Transport(e) => e.clone(),
        }
    }
}

/// The address of an endpoint. The app key goes last, after whatever the path asks.
pub open spec fn address(base: Seq<char>, path: Seq<char>) -> Seq<char> {
    base + path + (if path.contains('?') {
        "&"@
    } else {
        "?"@
    }) + "app="@ + APP@
}

pub fn url(base: &str, path: &str) -> (url: String)
    ensures
        url@ == address(base@, path@),
{
    let all = chars_of(path);
    let mut asks = false;
    let mut i: usize = 0;
    while i < all.len()
        invariant
            i <= all.len(),
            all@ == path@,
            asks == exists|j: int| 0 <= j < i && #[trigger] path@[j] == '?',
        decreases all.len() - i,
    {
        if all[i] == '?' {
            asks = true;
        }
        i += 1;
    }
    let mut url = base.to_owned();
    url.append(path);
    url.append(
        if asks {
            "&"
        } else {
            "?"
        },
    );
    url.append("app=");
    url.append(APP);
    url
}

/// The method of a request: one without a body only asks.
pub open spec fn verb(has_body: bool) -> Seq<char> {
    if has_body {
        "POST"@
    } else {
        "GET"@
    }
}

pub fn method(has_body: bool) -> (m: &'static str)
    ensures
        m@ == verb(has_body),
        m@ == if has_body {
            "POST"@
        } else {
            "GET"@
        },
{
    if has_body {
        "POST"
    } else {
        "GET"
    }
}

/// The text under a key of a JSON object, where `body` is one and has a text there, as
/// `serde_json` reads it.
pub uninterp spec fn text_field(body: Seq<char>, key: Seq<char>) -> Option<Seq<char>>;

/// Calls `serde_json::from_str` for a JSON value, and takes the text under a key out of
/// it. There is none if the body is not JSON, is no object, or holds something else
/// there. The result depends on the body and the key alone.
#[verifier::external_body]
fn text_under(body: &str, key: &str) -> (r: Option<String>)
    ensures
        match r {
            Some(text) => text_field(body@, key@) == Some(text@),
            None => text_field(body@, key@) is None,
        },
{
    let value: serde_json::Value = serde_json::from_str(body).ok()?;
    value[key].as_str().map(String::from)
}

/// What a response means: 204 says there is nothing new yet, and a failure carries the
/// server's own words if it gave any.
pub open spec fn meaning(
    status: u16,
    ok: bool,
    body: Seq<char>,
    error: Option<Seq<char>>,
) -> Result<Option<Seq<char>>, ErrorView> {
    if status == 204 {
        Ok(None)
    } else if ok {
        Ok(Some(body))
    } else {
        Err(
            ErrorView::Refused {
                status,
                message: match error {
                    Some(message) => message,
                    None => "signalling server returned "@ + decimal(status as nat),
                },
            },
        )
    }
}

pub open spec fn is_meaning(
    r: Result<Option<String>, Error>,
    m: Result<Option<Seq<char>>, ErrorView>,
) -> bool {
    match (r, m) {
        (Ok(Some(a)), Ok(Some(b))) => a@ == b,
        (Ok(None), Ok(None)) => true,
        (Err(a), Err(b)) => a@ == b,
        _ => false,
    }
}

/// What a response means, given what its body says went wrong.
pub fn interpret(status: u16, ok: bool, body: String, error: Option<String>) -> (r: Result<
    Option<String>,
    Error,
>)
    ensures
        is_meaning(
            r,
            meaning(
                status,
                ok,
                body@,
                match error {
                    Some(e) => Some(e@),
                    None => None,
                },
            ),
        ),
{
    if status == 204 {
        Ok(None)
    } else if ok {
        Ok(Some(body))
    } else {
        let message = match error {
            Some(message) => message,
            None => {
                let mut message = "signalling server returned ".to_owned();
                push_decimal(&mut message, status as u64);
                message
            },
        };
        Err(Error::Refused { status, message })
    }
}

/// What a response means. What the server says went wrong is under "error" in its body.
pub fn respond(status: u16, ok: bool, body: String) -> (r: Result<Option<String>, Error>)
    ensures
        is_meaning(r, meaning(status, ok, body@, text_field(body@, "error"@))),
{
    let error = text_under(body.as_str(), "error");
    interpret(status, ok, body, error)
}

/// The body of a response that must have one.
pub open spec fn expected(body: Option<Seq<char>>) -> Result<Seq<char>, ErrorView> {
    match body {
        Some(text) => Ok(text),
        None => Err(ErrorView::Transport("expected a body, got 204"@)),
    }
}

pub fn expect_body(body: Option<String>) -> (r: Result<String, Error>)
    ensures
        ({
            let given = match body {
                Some(b) => Some(b@),
                None => None,
            };
            match r {
                Ok(text) => expected(given) == Ok::<Seq<char>, ErrorView>(text@),
                Err(e) => expected(given) == Err::<Seq<char>, ErrorView>(e@),
            }
        }),
        match (r, body) {
            (Ok(text), Some(b)) => text@ == b@,
            (Err(e), None) => e@ == ErrorView::Transport("expected a body, got 204"@),
            _ => false,
        },
{
    match body {
        Some(text) => Ok(text),
        None => Err(Error::Transport("expected a body, got 204".to_owned())),
    }
}

/// Where the host collects offers left since the last time.
pub open spec fn offers_at(code: Seq<char>) -> Seq<char> {
    "/offers/"@ + code
}

/// Where a joiner collects the host's answer for its seat.
pub open spec fn answer_at(code: Seq<char>, seat: nat) -> Seq<char> {
    "/answer/"@ + code + "/"@ + decimal(seat)
}

pub fn offers_path(code: &str) -> (path: String)
    ensures
        path@ == offers_at(code@),
        path@ == "/offers/"@ + code@,
{
    let mut path = "/offers/".to_owned();
    path.append(code);
    path
}

pub fn answer_path(code: &str, seat: u32) -> (path: String)
    ensures
        path@ == answer_at(code@, seat as nat),
        path@ == "/answer/"@ + code@ + "/"@ + decimal(seat as nat),
{
    let mut path = "/answer/".to_owned();
    path.append(code);
    path.append("/");
    push_decimal(&mut path, seat as u64);
    path
}

impl Description {
    pub open spec fn json(self) -> Seq<char> {
        description_text(quoted(self.kind@), quoted(self.sdp@))
    }

    /// As JSON.
    pub fn to_json(&self) -> (text: String)
        ensures
            text@ == self.json(),
    {
        write_description(quote(self.kind.as_str()).as_str(), quote(self.sdp.as_str()).as_str())
    }
}

/// An offer for the host of a room, from its parts as JSON.
pub open spec fn join_text(code: Seq<char>, offer: Seq<char>) -> Seq<char> {
    "{\"code\":"@ + code + ",\"offer\":"@ + offer + "}"@
}

pub fn write_join(code: &str, offer: &str) -> (text: String)
    ensures
        text@ == join_text(code@, offer@),
{
    let mut text = "{\"code\":".to_owned();
    text.append(code);
    text.append(",\"offer\":");
    text.append(offer);
    text.append("}");
    text
}

/// The body that leaves an offer for the host of `code`.
pub fn join_body(code: &str, offer: &Description) -> (text: String)
    ensures
        text@ == join_text(quoted(code@), offer.json()),
{
    write_join(quote(code).as_str(), offer.to_json().as_str())
}

/// An answer for a seat, from its parts as JSON.
pub open spec fn answer_text(code: Seq<char>, seat: nat, answer: Seq<char>) -> Seq<char> {
    "{\"answer\":"@ + answer + ",\"code\":"@ + code + ",\"seat\":"@ + decimal(seat) + "}"@
}

pub fn write_answer(code: &str, seat: u32, answer: &str) -> (text: String)
    ensures
        text@ == answer_text(code@, seat as nat, answer@),
{
    let mut text = "{\"answer\":".to_owned();
    text.append(answer);
    text.append(",\"code\":");
    text.append(code);
    text.append(",\"seat\":");
    push_decimal(&mut text, seat as u64);
    text.append("}");
    text
}

/// The body that answers the offer in a seat.
pub fn answer_body(code: &str, seat: u32, answer: &Description) -> (text: String)
    ensures
        text@ == answer_text(quoted(code@), seat as nat, answer.json()),
{
    write_answer(quote(code).as_str(), seat, answer.to_json().as_str())
}

/// The end of a room, from its code as JSON.
pub open spec fn close_text(code: Seq<char>) -> Seq<char> {
    "{\"code\":"@ + code + "}"@
}

pub fn write_close(code: &str) -> (text: String)
    ensures
        text@ == close_text(code@),
{
    let mut text = "{\"code\":".to_owned();
    text.append(code);
    text.append("}");
    text
}

/// The body that drops the room. Only when the lobby breaks up, not when the match
/// starts: the room has to stay reachable so a dropped player can signal their way
/// back in.
pub fn close_body(code: &str) -> (text: String)
    ensures
        text@ == close_text(quoted(code@)),
{
    write_close(quote(code).as_str())
}

/// A room is gone where the server says 404, and at no other failure. A person is shown the
/// server's words, or how the request failed.
pub proof fn law_errors_say_what_happened(status: u16, message: Seq<char>)
    ensures
        (ErrorView::Refused { status, message }).missing() <==> status == 404,
        !ErrorView::Transport(message).missing(),
        (ErrorView::Refused { status, message }).words() == message,
        ErrorView::Transport(message).words() == message,
{
}

/// The app key is the last thing in every address: behind a question mark, or behind what the
/// path asks already.
pub proof fn law_addresses_end_with_the_app(base: Seq<char>, path: Seq<char>, i: int)
    ensures
        0 <= i < path.len() && path[i] == '?' ==> address(base, path) == base + path
            + "&app=waldo"@,
        (forall|j: int| 0 <= j < path.len() ==> #[trigger] path[j] != '?') ==> address(base, path)
            == base + path + "?app=waldo"@,
{
    reveal_strlit("&");
    reveal_strlit("?");
    reveal_strlit("app=");
    reveal_strlit("waldo");
    reveal_strlit("&app=waldo");
    reveal_strlit("?app=waldo");
    assert(base + path + "&"@ + "app="@ + "waldo"@ =~= base + path + "&app=waldo"@);
    assert(base + path + "?"@ + "app="@ + "waldo"@ =~= base + path + "?app=waldo"@);
    if 0 <= i < path.len() && path[i] == '?' {
        assert(path.contains('?'));
    }
}

/// A response is nothing new at 204, whatever comes with it, its body where it went well, and
/// otherwise a refusal in the server's words, or with its status where it has none.
pub proof fn law_responses_mean_what_they_say(
    status: u16,
    ok: bool,
    body: Seq<char>,
    error: Option<Seq<char>>,
    words: Seq<char>,
)
    ensures
        meaning(204, ok, body, error) == Ok::<Option<Seq<char>>, ErrorView>(None),
        status != 204 ==> meaning(status, true, body, error) == Ok::<Option<Seq<char>>, ErrorView>(
            Some(body),
        ),
        status != 204 ==> meaning(status, false, body, Some(words)) == Err::<
            Option<Seq<char>>,
            ErrorView,
        >(ErrorView::Refused { status, message: words }),
        status != 204 ==> meaning(status, false, body, None) == Err::<Option<Seq<char>>, ErrorView>(
            ErrorView::Refused {
                status,
                message: "signalling server returned "@ + decimal(status as nat),
            },
        ),
{
}

/// A request with a body posts it, and one without asks. What must come with a body fails
/// without one. Offers are kept by code, and answers by code and seat.
pub proof fn law_requests_go_where_they_should(code: Seq<char>, seat: nat, text: Seq<char>)
    ensures
        verb(true) == "POST"@,
        verb(false) == "GET"@,
        expected(Some(text)) == Ok::<Seq<char>, ErrorView>(text),
        expected(None) == Err::<Seq<char>, ErrorView>(
            ErrorView::Transport("expected a body, got 204"@),
        ),
        offers_at(code) == "/offers/"@ + code,
        answer_at(code, seat) == "/answer/"@ + code + "/"@ + decimal(seat),
{
}

/// What is sent is JSON: each part stands under its name.
pub proof fn law_bodies_name_their_parts(
    code: Seq<char>,
    seat: nat,
    kind: String,
    sdp: String,
)
    ensures
        ({
            let d = Description { kind, sdp }.json();
            &&& d == "{\"sdp\":"@ + quoted(sdp@) + ",\"type\":"@ + quoted(kind@) + "}"@
            &&& join_text(quoted(code), d) == "{\"code\":"@ + quoted(code) + ",\"offer\":"@ + d
                + "}"@
            &&& answer_text(quoted(code), seat, d) == "{\"answer\":"@ + d + ",\"code\":"@ + quoted(
                code,
            ) + ",\"seat\":"@ + decimal(seat) + "}"@
            &&& close_text(quoted(code)) == "{\"code\":"@ + quoted(code) + "}"@
        }),
{
}

} // verus!
